//! As contas do quadro do Swarm na aba CLUSTER: quantas tasks e containers
//! soltos, quantos servicos, a ordem das linhas por no e quanto tempo vale
//! cada bloco da faixa de disponibilidade.
use vstd::prelude::*;

use crate::texto;

verus! {

/// Quantos dos containers sao tasks de Swarm.
pub open spec fn tasks_spec(cs: Seq<(bool, String, String)>) -> nat
    decreases cs.len(),
{
    if cs.len() == 0 {
        0
    } else {
        tasks_spec(cs.drop_last()) + if cs.last().0 {
            1nat
        } else {
            0nat
        }
    }
}

/// Os servicos distintos (stack, servico) das tasks de Swarm.
pub open spec fn servicos_spec(cs: Seq<(bool, String, String)>) -> Set<(Seq<char>, Seq<char>)>
    decreases cs.len(),
{
    if cs.len() == 0 {
        Set::empty()
    } else if cs.last().0 {
        servicos_spec(cs.drop_last()).insert((cs.last().1@, cs.last().2@))
    } else {
        servicos_spec(cs.drop_last())
    }
}

proof fn lema_tasks_ate(cs: Seq<(bool, String, String)>)
    ensures
        tasks_spec(cs) <= cs.len(),
    decreases cs.len(),
{
    if cs.len() > 0 {
        lema_tasks_ate(cs.drop_last());
    }
}

/// Os pares de uma lista, como texto.
pub open spec fn pares(v: Seq<(String, String)>) -> Seq<(Seq<char>, Seq<char>)> {
    v.map_values(|p: (String, String)| (p.0@, p.1@))
}

/// As tasks sao os containers marcados como task de Swarm, e os servicos
/// sao os pares (stack, servico) que alguma task traz, cada um uma vez.
pub proof fn lei_contagem_swarm(cs: Seq<(bool, String, String)>)
    ensures
        tasks_spec(cs) == cs.filter(|c: (bool, String, String)| c.0).len(),
        servicos_spec(cs).finite(),
        forall|p: (Seq<char>, Seq<char>)|
            #[trigger] servicos_spec(cs).contains(p) <==> exists|i: int|
                0 <= i < cs.len() && (#[trigger] cs[i]).0 && (cs[i].1@, cs[i].2@) == p,
    decreases cs.len(),
{
    reveal(Seq::filter);
    if cs.len() > 0 {
        let d = cs.drop_last();
        lei_contagem_swarm(d);
        assert forall|p: (Seq<char>, Seq<char>)|
            #[trigger] servicos_spec(cs).contains(p) <==> exists|i: int|
                0 <= i < cs.len() && (#[trigger] cs[i]).0 && (cs[i].1@, cs[i].2@) == p by {
            if servicos_spec(cs).contains(p) {
                if cs.last().0 && p == (cs.last().1@, cs.last().2@) {
                    assert(cs[cs.len() - 1] == cs.last());
                } else {
                    let i = choose|i: int| 0 <= i < d.len() && (#[trigger] d[i]).0 && (d[i].1@, d[i].2@) == p;
                    assert(cs[i] == d[i]);
                }
            }
            if exists|i: int| 0 <= i < cs.len() && (#[trigger] cs[i]).0 && (cs[i].1@, cs[i].2@) == p {
                let i = choose|i: int| 0 <= i < cs.len() && (#[trigger] cs[i]).0 && (cs[i].1@, cs[i].2@) == p;
                if i < cs.len() - 1 {
                    assert(cs[i] == d[i]);
                }
            }
        }
    }
}

/// Cada bloco vale pelo menos um minuto; com a janela de ao menos um bloco,
/// os blocos cabem nela e um bloco a mais ja nao cabe.
pub proof fn lei_minutos_por_bloco(janela: int, blocos: nat)
    requires
        blocos > 0,
    ensures
        minutos_por_bloco_spec(janela, blocos) >= 1,
        janela < blocos ==> minutos_por_bloco_spec(janela, blocos) == 1,
        janela >= blocos ==> minutos_por_bloco_spec(janela, blocos) * blocos <= janela
            < (minutos_por_bloco_spec(janela, blocos) + 1) * blocos,
{
    let m = minutos_por_bloco_spec(janela, blocos);
    if janela >= 0 {
        let q = janela / (blocos as int);
        assert(q * blocos <= janela < (q + 1) * blocos) by (nonlinear_arith)
            requires
                blocos > 0,
                q == janela / (blocos as int),
                janela >= 0,
        ;
        if janela >= blocos {
            assert(q >= 1) by (nonlinear_arith)
                requires
                    blocos > 0,
                    janela >= blocos,
                    q * blocos <= janela < (q + 1) * blocos,
            ;
        } else {
            assert(q < 1) by (nonlinear_arith)
                requires
                    blocos > 0,
                    0 <= janela < blocos,
                    q == janela / (blocos as int),
            ;
        }
    } else {
        let q = (-janela) / (blocos as int);
        assert(q >= 0) by (nonlinear_arith)
            requires
                blocos > 0,
                q == (-janela) / (blocos as int),
                janela < 0,
        ;
    }
}

fn tem_par(v: &Vec<(String, String)>, a: &String, b: &String) -> (r: bool)
    ensures
        r == pares(v@).contains((a@, b@)),
{
    let mut i: usize = 0;
    while i < v.len()
        invariant
            i <= v.len(),
            forall|k: int| 0 <= k < i ==> #[trigger] pares(v@)[k] != (a@, b@),
        decreases v.len() - i,
    {
        if texto::str_igual(v[i].0.as_str(), a.as_str()) && texto::str_igual(
            v[i].1.as_str(),
            b.as_str(),
        ) {
            assert(pares(v@)[i as int] == (a@, b@));
            return true;
        }
        i = i + 1;
    }
    false
}

/// Tasks de Swarm, containers soltos e servicos distintos, de containers
/// dados como (e task de Swarm, stack, servico).
pub fn contagem_swarm(cs: &Vec<(bool, String, String)>) -> (r: (usize, usize, usize))
    ensures
        r.0 == tasks_spec(cs@),
        r.1 == cs.len() - tasks_spec(cs@),
        r.2 == servicos_spec(cs@).len(),
{
    let mut tasks: usize = 0;
    let mut soltos: usize = 0;
    let mut vistos: Vec<(String, String)> = Vec::new();
    let mut i: usize = 0;
    assert(pares(vistos@) =~= Seq::<(Seq<char>, Seq<char>)>::empty());
    assert(cs@.take(0) =~= Seq::<(bool, String, String)>::empty());
    while i < cs.len()
        invariant
            i <= cs.len(),
            tasks == tasks_spec(cs@.take(i as int)),
            tasks + soltos == i,
            pares(vistos@).to_set() == servicos_spec(cs@.take(i as int)),
            pares(vistos@).no_duplicates(),
        decreases cs.len() - i,
    {
        let ghost t = cs@.take(i + 1);
        assert(t.drop_last() =~= cs@.take(i as int));
        assert(t.last() == cs@[i as int]);
        proof {
            lema_tasks_ate(cs@.take(i as int));
        }
        if cs[i].0 {
            tasks = tasks + 1;
            if !tem_par(&vistos, &cs[i].1, &cs[i].2) {
                let ghost antes = pares(vistos@);
                let a = cs[i].1.clone();
                let b = cs[i].2.clone();
                assert(a@ == cs@[i as int].1@ && b@ == cs@[i as int].2@);
                vistos.push((a, b));
                proof {
                    assert(pares(vistos@) =~= antes.push((cs@[i as int].1@, cs@[i as int].2@)));
                    antes.lemma_push_to_set_commute((cs@[i as int].1@, cs@[i as int].2@));
                }
            } else {
                assert(servicos_spec(t) =~= servicos_spec(cs@.take(i as int)));
            }
        } else {
            soltos = soltos + 1;
        }
        i = i + 1;
    }
    assert(cs@.take(cs.len() as int) =~= cs@);
    proof {
        pares(vistos@).unique_seq_to_set();
    }
    (tasks, soltos, vistos.len())
}

/// Quantos minutos vale um bloco da faixa: a janela repartida pelos blocos
/// (um, se nao houver), pelo menos 1.
pub open spec fn minutos_por_bloco_spec(janela: int, blocos: nat) -> int {
    let b = if blocos == 0 {
        1
    } else {
        blocos as int
    };
    let q = if janela >= 0 {
        janela / b
    } else {
        -((-janela) / b)
    };
    if q < 1 {
        1
    } else {
        q
    }
}

pub fn minutos_por_bloco(janela: i64, blocos: usize) -> (r: i64)
    requires
        blocos <= i64::MAX,
    ensures
        r == minutos_por_bloco_spec(janela as int, blocos as nat),
{
    let b: i64 = if blocos == 0 {
        1
    } else {
        blocos as i64
    };
    let q = janela / b;
    if q < 1 {
        1
    } else {
        q
    }
}

} // verus!

verus! {

/// A ordem das linhas da aba: pelo no, e no mesmo no pelo tenant.
pub open spec fn antes(a: (Seq<char>, Seq<char>), b: (Seq<char>, Seq<char>)) -> bool {
    texto::menor(a.0, b.0) || (a.0 == b.0 && texto::menor(a.1, b.1))
}

proof fn lema_antes(a: (Seq<char>, Seq<char>), b: (Seq<char>, Seq<char>), c: (Seq<char>, Seq<char>))
    ensures
        !antes(a, a),
        !(antes(a, b) && antes(b, a)),
        a == b || antes(a, b) || antes(b, a),
        antes(a, b) && antes(b, c) ==> antes(a, c),
        !antes(a, b) && !antes(b, c) ==> !antes(a, c),
{
    texto::lema_menor_total(a.0, b.0);
    texto::lema_menor_total(a.1, b.1);
    texto::lema_menor_total(b.0, c.0);
    texto::lema_menor_total(b.1, c.1);
    texto::lema_menor_total(a.0, c.0);
    texto::lema_menor_total(a.1, c.1);
    if texto::menor(a.0, b.0) && texto::menor(b.0, c.0) {
        texto::lema_menor_trans(a.0, b.0, c.0);
    }
    if texto::menor(a.1, b.1) && texto::menor(b.1, c.1) {
        texto::lema_menor_trans(a.1, b.1, c.1);
    }
    if texto::menor(b.0, a.0) && texto::menor(c.0, b.0) {
        texto::lema_menor_trans(c.0, b.0, a.0);
    }
    if texto::menor(b.1, a.1) && texto::menor(c.1, b.1) {
        texto::lema_menor_trans(c.1, b.1, a.1);
    }
    if a.0 == b.0 && a.1 == b.1 {
        assert(a == b);
    }
}

/// As chaves (no, tenant) como texto.
pub open spec fn chaves(v: Seq<(String, String)>) -> Seq<(Seq<char>, Seq<char>)> {
    v.map_values(|p: (String, String)| (p.0@, p.1@))
}

/// `r` lista os indices de `k` em ordem, e no empate na ordem em que vieram.
pub open spec fn em_ordem(k: Seq<(Seq<char>, Seq<char>)>, r: Seq<usize>, n: int) -> bool {
    &&& r.len() == n
    &&& forall|i: int| 0 <= i < r.len() ==> #[trigger] r[i] < n
    &&& forall|i: int, j: int| 0 <= i < j < r.len() ==> #[trigger] r[i] != #[trigger] r[j]
    &&& forall|i: int, j: int|
        0 <= i < j < r.len() ==> !antes(k[#[trigger] r[j] as int], k[#[trigger] r[i] as int])
    &&& forall|i: int, j: int|
        0 <= i < j < r.len() && k[#[trigger] r[i] as int] == k[#[trigger] r[j] as int] ==> r[i] < r[j]
}

fn antes_de(a: &(String, String), b: &(String, String)) -> (r: bool)
    ensures
        r == antes((a.0@, a.1@), (b.0@, b.1@)),
{
    texto::menor_str(&a.0, &b.0) || (texto::str_igual(a.0.as_str(), b.0.as_str())
        && texto::menor_str(&a.1, &b.1))
}

/// A ordem das linhas por (no, tenant), estavel: devolve os indices das
/// linhas na ordem em que aparecem.
pub fn ordem_por_no(k: &Vec<(String, String)>) -> (r: Vec<usize>)
    ensures
        em_ordem(chaves(k@), r@, k.len() as int),
{
    let ghost ks = chaves(k@);
    let mut r: Vec<usize> = Vec::new();
    let mut x: usize = 0;
    while x < k.len()
        invariant
            x <= k.len(),
            ks == chaves(k@),
            em_ordem(ks, r@, x as int),
        decreases k.len() - x,
    {
        let mut p = r.len();
        while p > 0 && antes_de(&k[x], &k[r[p - 1]])
            invariant
                p <= r.len(),
                x < k.len(),
                ks == chaves(k@),
                em_ordem(ks, r@, x as int),
                forall|q: int| p <= q < r.len() ==> antes(ks[x as int], ks[#[trigger] r@[q] as int]),
            decreases p,
        {
            p = p - 1;
        }
        let ghost velho = r@;
        proof {
            assert forall|i: int| 0 <= i < p implies !antes(ks[x as int], ks[#[trigger] velho[i] as int]) by {
                if i < p - 1 {
                    lema_antes(ks[x as int], ks[velho[p - 1] as int], ks[velho[i] as int]);
                }
            }
            assert forall|q: int| p <= q < velho.len() implies !antes(ks[#[trigger] velho[q] as int], ks[x as int])
                && ks[velho[q] as int] != ks[x as int] by {
                lema_antes(ks[x as int], ks[velho[q] as int], ks[x as int]);
            }
        }
        r.insert(p, x);
        proof {
            let n = r@;
            assert(n == velho.insert(p as int, x));
            assert forall|i: int| 0 <= i < n.len() implies #[trigger] n[i] < x + 1 by {
                if i > p {
                    assert(n[i] == velho[i - 1]);
                }
            }
            assert forall|i: int, j: int| 0 <= i < j < n.len() implies #[trigger] n[i] != #[trigger] n[j]
                && !antes(ks[n[j] as int], ks[n[i] as int]) && (ks[n[i] as int] == ks[n[j] as int]
                ==> n[i] < n[j]) by {
                if j < p {
                } else if j == p {
                } else if i < p {
                    assert(n[j] == velho[j - 1]);
                } else if i == p {
                    assert(n[j] == velho[j - 1]);
                } else {
                    assert(n[i] == velho[i - 1]);
                    assert(n[j] == velho[j - 1]);
                }
            }
        }
        x = x + 1;
    }
    r
}

} // verus!

verus! {

/// O veredito do quadro do Swarm.
pub enum Veredito {
    /// A ultima coleta falhou: mostra-se o erro dela.
    Erro,
    /// Ha tenants com o site fora do ar: o texto os lista.
    Fora(String),
    /// Ha tenants sem replica: o texto os lista.
    SemReplica(String),
    /// Todos no ar e com replica.
    Integro,
    /// Nenhum tenant coletado ainda.
    Coletando,
}

/// Escolhe o veredito, nesta ordem: erro da coleta, tenants fora do ar,
/// tenants sem replica, cluster integro se ha tenants, senao coletando.
pub fn veredito(erro: &str, fora: &Vec<String>, sem_replica: &Vec<String>, total: usize) -> (r: Veredito)
    ensures
        erro@.len() > 0 ==> r is Erro,
        erro@.len() == 0 && fora.len() > 0 ==> (r matches Veredito::Fora(t) && t@ == "FORA DO AR: "@
            + texto::juntados(texto::vistas(fora@), ", "@)),
        erro@.len() == 0 && fora.len() == 0 && sem_replica.len() > 0 ==> (r matches Veredito::SemReplica(t)
            && t@ == "SEM REPLICA: "@ + texto::juntados(texto::vistas(sem_replica@), ", "@)),
        erro@.len() == 0 && fora.len() == 0 && sem_replica.len() == 0 ==> (if total > 0 {
            r is Integro
        } else {
            r is Coletando
        }),
{
    if !erro.is_empty() {
        Veredito::Erro
    } else if fora.len() > 0 {
        let mut v = texto::chars_de("FORA DO AR: ");
        let l = texto::junta_lista(fora, ", ");
        texto::junta_str(&mut v, l.as_str());
        Veredito::Fora(texto::string_de(&v))
    } else if sem_replica.len() > 0 {
        let mut v = texto::chars_de("SEM REPLICA: ");
        let l = texto::junta_lista(sem_replica, ", ");
        texto::junta_str(&mut v, l.as_str());
        Veredito::SemReplica(texto::string_de(&v))
    } else if total > 0 {
        Veredito::Integro
    } else {
        Veredito::Coletando
    }
}

} // verus!
