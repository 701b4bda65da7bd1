//! Visao por tenant do cluster.
//!
//! Monitoramento por no responde "a maquina esta saudavel?". Quando a maquina
//! hospeda muitos tenants independentes, essa e a unidade errada: um no em 15%
//! de CPU pode ter um tenant fora do ar. Aqui o mesmo dado vira uma linha por
//! tenant.
//!
//! O no de cada tenant sai do label de caixa das metricas de banco, e o
//! consumo sai do nome das tasks no cAdvisor.
use vstd::prelude::*;

use crate::cfg::{ClusterCfg, No};
use crate::coleta::Rotulos;
use crate::texto;

verus! {

/// Os tres primeiros caracteres.
pub open spec fn tres(s: Seq<char>) -> Seq<char> {
    if s.len() <= 3 {
        s
    } else {
        s.subrange(0, 3)
    }
}

/// A sigla do primeiro no, a partir de `i`, que declara essa caixa.
pub open spec fn sigla_desde(caixa: Seq<char>, nos: Seq<No>, i: int) -> Seq<char>
    decreases nos.len() - i,
{
    if i < 0 || i >= nos.len() {
        "?"@
    } else if nos[i].caixa@.len() > 0 && nos[i].caixa@ == caixa {
        if nos[i].sigla@.len() == 0 {
            tres(nos[i].nome@)
        } else {
            nos[i].sigla@
        }
    } else {
        sigla_desde(caixa, nos, i + 1)
    }
}

/// Rotulo curto do no dono de uma caixa: a sigla configurada, ou as tres
/// primeiras letras do nome; `?` para caixa vazia ou que nenhum no declara.
pub open spec fn sigla_spec(caixa: Seq<char>, nos: Seq<No>) -> Seq<char> {
    if caixa.len() == 0 {
        "?"@
    } else {
        sigla_desde(caixa, nos, 0)
    }
}

pub fn sigla_da_caixa(caixa: &str, nos: &Vec<No>) -> (r: String)
    ensures
        r@ == sigla_spec(caixa@, nos@),
{
    if caixa.is_empty() {
        return "?".to_owned();
    }
    let mut i: usize = 0;
    while i < nos.len()
        invariant
            i <= nos.len(),
            caixa@.len() > 0,
            sigla_desde(caixa@, nos@, i as int) == sigla_spec(caixa@, nos@),
        decreases nos.len() - i,
    {
        let n = &nos[i];
        if !n.caixa.as_str().is_empty() && texto::str_igual(n.caixa.as_str(), caixa) {
            if n.sigla.as_str().is_empty() {
                let v = texto::chars_de(n.nome.as_str());
                let k = if v.len() <= 3 {
                    v.len()
                } else {
                    3
                };
                let t = texto::trecho(&v, 0, k);
                assert(v@.subrange(0, v.len() as int) =~= v@);
                return texto::string_de(&t);
            } else {
                return n.sigla.clone();
            }
        }
        i = i + 1;
    }
    "?".to_owned()
}

/// Larguras das colunas da tabela de tenants. A ultima e a faixa de
/// disponibilidade, com pelo menos 19 colunas.
pub fn larguras_tenants(blocos: usize) -> (r: Vec<usize>)
    ensures
        r@ == seq![13usize, 3, 4, 4, 5, 7, 5, 7, 5, 8, if blocos > 19 { blocos } else { 19 }],
{
    let mut v: Vec<usize> = Vec::new();
    v.push(13);
    v.push(3);
    v.push(4);
    v.push(4);
    v.push(5);
    v.push(7);
    v.push(5);
    v.push(7);
    v.push(5);
    v.push(8);
    v.push(
        if blocos > 19 {
            blocos
        } else {
            19
        },
    );
    assert(v@ =~= seq![13usize, 3, 4, 4, 5, 7, 5, 7, 5, 8, if blocos > 19 { blocos } else { 19 }]);
    v
}

/// Soma de `l + 2` sobre as colunas: o conteudo com um espaco de cada lado.
pub open spec fn soma_colunas(ls: Seq<usize>) -> int
    decreases ls.len(),
{
    if ls.len() == 0 {
        0
    } else {
        soma_colunas(ls.drop_last()) + ls.last() + 2
    }
}

pub proof fn lema_soma_colunas_mono(ls: Seq<usize>, i: int)
    requires
        0 <= i <= ls.len(),
    ensures
        soma_colunas(ls.take(i)) <= soma_colunas(ls),
    decreases ls.len() - i,
{
    if i < ls.len() {
        lema_soma_colunas_mono(ls, i + 1);
        assert(ls.take(i + 1).drop_last() =~= ls.take(i));
    } else {
        assert(ls.take(i) =~= ls);
    }
}

/// Largura de uma tabela que ninguem estica: colunas, espacos e as bordas.
pub open spec fn largura_natural_spec(ls: Seq<usize>) -> int {
    soma_colunas(ls) + ls.len() + 1
}

pub fn largura_natural(larguras: &Vec<usize>) -> (r: usize)
    requires
        largura_natural_spec(larguras@) <= usize::MAX,
    ensures
        r == largura_natural_spec(larguras@),
{
    let mut soma: usize = 0;
    let mut i: usize = 0;
    while i < larguras.len()
        invariant
            i <= larguras.len(),
            soma == soma_colunas(larguras@.take(i as int)),
            largura_natural_spec(larguras@) <= usize::MAX,
        decreases larguras.len() - i,
    {
        proof {
            assert(larguras@.take(i + 1).drop_last() =~= larguras@.take(i as int));
            lema_soma_colunas_mono(larguras@, i + 1);
        }
        soma = soma + larguras[i] + 2;
        i = i + 1;
    }
    assert(larguras@.take(larguras.len() as int) =~= larguras@);
    soma + larguras.len() + 1
}

} // verus!

verus! {

/// Serie com os rotulos preservados.
pub struct Serie<V> {
    pub rotulos: Rotulos,
    pub valor: V,
}

impl<V> Serie<V> {
    /// O rotulo `chave` da serie, ou vazio.
    pub fn rotulo(&self, chave: &str) -> (r: String)
        ensures
            r@ == rotulo_spec(self.rotulos, chave@),
    {
        self.rotulos.rotulo(chave)
    }
}

/// O rotulo da serie, ou vazio.
pub open spec fn rotulo_spec(r: Rotulos, chave: Seq<char>) -> Seq<char> {
    if r.mapa().contains_key(chave) {
        r.mapa()[chave]
    } else {
        Seq::empty()
    }
}

/// Valor de cada serie indexado pelo rotulo `chave`; com rotulo repetido, a
/// ultima serie prevalece.
pub open spec fn mapa_por<V>(s: Seq<Serie<V>>, chave: Seq<char>) -> Map<Seq<char>, V>
    decreases s.len(),
{
    if s.len() == 0 {
        Map::empty()
    } else {
        mapa_por(s.drop_last(), chave).insert(rotulo_spec(s.last().rotulos, chave), s.last().valor)
    }
}

/// Rotulo `chave_b` de cada serie indexado pelo rotulo `chave_a`.
pub open spec fn caixas<V>(s: Seq<Serie<V>>, chave_a: Seq<char>, chave_b: Seq<char>) -> Map<
    Seq<char>,
    Seq<char>,
>
    decreases s.len(),
{
    if s.len() == 0 {
        Map::empty()
    } else {
        caixas(s.drop_last(), chave_a, chave_b).insert(
            rotulo_spec(s.last().rotulos, chave_a),
            rotulo_spec(s.last().rotulos, chave_b),
        )
    }
}

/// Consumo por (stack, servico): so containers de Swarm cujo servico e o da
/// aplicacao ou o do banco; o ultimo visto prevalece.
pub open spec fn uso_spec<U>(cs: Seq<(String, String, U)>, app: Seq<char>, banco: Seq<char>) -> Map<
    (Seq<char>, Seq<char>),
    U,
>
    decreases cs.len(),
{
    if cs.len() == 0 {
        Map::empty()
    } else {
        let m = uso_spec(cs.drop_last(), app, banco);
        let c = cs.last();
        if c.0@.len() > 0 && (c.1@ == app || c.1@ == banco) {
            m.insert((c.0@, c.1@), c.2)
        } else {
            m
        }
    }
}

/// Busca num mapa: `get(k).copied()`.
pub open spec fn busca<K, V>(m: Map<K, V>, k: K) -> Option<V> {
    if m.contains_key(k) {
        Some(m[k])
    } else {
        None
    }
}

proof fn lema_mapa_por_ultimo<V>(s: Seq<Serie<V>>, chave: Seq<char>, alvo: Seq<char>, k: int)
    requires
        0 <= k < s.len(),
        rotulo_spec(s[k].rotulos, chave) == alvo,
        forall|j: int| k < j < s.len() ==> rotulo_spec(#[trigger] s[j].rotulos, chave) != alvo,
    ensures
        busca(mapa_por(s, chave), alvo) == Some(s[k].valor),
    decreases s.len(),
{
    if k < s.len() - 1 {
        lema_mapa_por_ultimo(s.drop_last(), chave, alvo, k);
        assert(rotulo_spec(s[s.len() - 1].rotulos, chave) != alvo);
    }
}

proof fn lema_mapa_por_ausente<V>(s: Seq<Serie<V>>, chave: Seq<char>, alvo: Seq<char>)
    requires
        forall|j: int| 0 <= j < s.len() ==> rotulo_spec(#[trigger] s[j].rotulos, chave) != alvo,
    ensures
        busca(mapa_por(s, chave), alvo) is None,
    decreases s.len(),
{
    if s.len() > 0 {
        lema_mapa_por_ausente(s.drop_last(), chave, alvo);
        assert(rotulo_spec(s[s.len() - 1].rotulos, chave) != alvo);
    }
}

/// `por(series, chave).get(alvo).copied()`.
pub fn valor_por<V: Copy>(s: &Vec<Serie<V>>, chave: &str, alvo: &str) -> (r: Option<V>)
    ensures
        r == busca(mapa_por(s@, chave@), alvo@),
{
    let mut k = s.len();
    while k > 0
        invariant
            k <= s.len(),
            forall|j: int| k <= j < s.len() ==> rotulo_spec(#[trigger] s@[j].rotulos, chave@) != alvo@,
        decreases k,
    {
        let r = s[k - 1].rotulos.rotulo(chave);
        if texto::str_igual(r.as_str(), alvo) {
            proof {
                lema_mapa_por_ultimo(s@, chave@, alvo@, k - 1);
            }
            return Some(s[k - 1].valor);
        }
        k = k - 1;
    }
    proof {
        lema_mapa_por_ausente(s@, chave@, alvo@);
    }
    None
}

proof fn lema_caixas_ultimo<V>(
    s: Seq<Serie<V>>,
    ka: Seq<char>,
    kb: Seq<char>,
    alvo: Seq<char>,
    k: int,
)
    requires
        0 <= k < s.len(),
        rotulo_spec(s[k].rotulos, ka) == alvo,
        forall|j: int| k < j < s.len() ==> rotulo_spec(#[trigger] s[j].rotulos, ka) != alvo,
    ensures
        busca(caixas(s, ka, kb), alvo) == Some(rotulo_spec(s[k].rotulos, kb)),
    decreases s.len(),
{
    if k < s.len() - 1 {
        lema_caixas_ultimo(s.drop_last(), ka, kb, alvo, k);
        assert(rotulo_spec(s[s.len() - 1].rotulos, ka) != alvo);
    }
}

proof fn lema_caixas_ausente<V>(s: Seq<Serie<V>>, ka: Seq<char>, kb: Seq<char>, alvo: Seq<char>)
    requires
        forall|j: int| 0 <= j < s.len() ==> rotulo_spec(#[trigger] s[j].rotulos, ka) != alvo,
    ensures
        busca(caixas(s, ka, kb), alvo) is None,
    decreases s.len(),
{
    if s.len() > 0 {
        lema_caixas_ausente(s.drop_last(), ka, kb, alvo);
        assert(rotulo_spec(s[s.len() - 1].rotulos, ka) != alvo);
    }
}

/// `caixa_de(series).get(alvo)`, ou vazio.
pub fn caixa_por<V>(s: &Vec<Serie<V>>, ka: &str, kb: &str, alvo: &str) -> (r: String)
    ensures
        r@ == (match busca(caixas(s@, ka@, kb@), alvo@) {
            Some(c) => c,
            None => Seq::empty(),
        }),
{
    let mut k = s.len();
    while k > 0
        invariant
            k <= s.len(),
            forall|j: int| k <= j < s.len() ==> rotulo_spec(#[trigger] s@[j].rotulos, ka@) != alvo@,
        decreases k,
    {
        let r = s[k - 1].rotulos.rotulo(ka);
        if texto::str_igual(r.as_str(), alvo) {
            proof {
                lema_caixas_ultimo(s@, ka@, kb@, alvo@, k - 1);
            }
            return s[k - 1].rotulos.rotulo(kb);
        }
        k = k - 1;
    }
    proof {
        lema_caixas_ausente(s@, ka@, kb@, alvo@);
    }
    String::new()
}

/// Serve ao filtro do consumo.
pub open spec fn conta_uso(c: (Seq<char>, Seq<char>), app: Seq<char>, banco: Seq<char>) -> bool {
    c.0.len() > 0 && (c.1 == app || c.1 == banco)
}

proof fn lema_uso_ultimo<U>(
    cs: Seq<(String, String, U)>,
    app: Seq<char>,
    banco: Seq<char>,
    alvo: (Seq<char>, Seq<char>),
    k: int,
)
    requires
        0 <= k < cs.len(),
        conta_uso((cs[k].0@, cs[k].1@), app, banco),
        (cs[k].0@, cs[k].1@) == alvo,
        forall|j: int|
            k < j < cs.len() ==> !(conta_uso((cs[j].0@, cs[j].1@), app, banco) && (
            #[trigger] cs[j].0@, cs[j].1@) == alvo),
    ensures
        busca(uso_spec(cs, app, banco), alvo) == Some(cs[k].2),
    decreases cs.len(),
{
    if k < cs.len() - 1 {
        lema_uso_ultimo(cs.drop_last(), app, banco, alvo, k);
        let j = cs.len() - 1;
        assert(!(conta_uso((cs[j].0@, cs[j].1@), app, banco) && (cs[j].0@, cs[j].1@) == alvo));
    }
}

proof fn lema_uso_ausente<U>(
    cs: Seq<(String, String, U)>,
    app: Seq<char>,
    banco: Seq<char>,
    alvo: (Seq<char>, Seq<char>),
)
    requires
        forall|j: int|
            0 <= j < cs.len() ==> !(conta_uso((cs[j].0@, cs[j].1@), app, banco) && (
            #[trigger] cs[j].0@, cs[j].1@) == alvo),
    ensures
        busca(uso_spec(cs, app, banco), alvo) is None,
    decreases cs.len(),
{
    if cs.len() > 0 {
        lema_uso_ausente(cs.drop_last(), app, banco, alvo);
        let j = cs.len() - 1;
        assert(!(conta_uso((cs[j].0@, cs[j].1@), app, banco) && (cs[j].0@, cs[j].1@) == alvo));
    }
}

/// `uso.get(&(stack, svc)).copied()`.
pub fn uso_por<U: Copy>(
    cs: &Vec<(String, String, U)>,
    app: &str,
    banco: &str,
    stack: &str,
    svc: &str,
) -> (r: Option<U>)
    ensures
        r == busca(uso_spec(cs@, app@, banco@), (stack@, svc@)),
{
    let mut k = cs.len();
    while k > 0
        invariant
            k <= cs.len(),
            forall|j: int|
                k <= j < cs.len() ==> !(conta_uso((cs@[j].0@, cs@[j].1@), app@, banco@) && (
                #[trigger] cs@[j].0@, cs@[j].1@) == (stack@, svc@)),
        decreases k,
    {
        let c = &cs[k - 1];
        let conta = !c.0.as_str().is_empty() && (texto::str_igual(c.1.as_str(), app)
            || texto::str_igual(c.1.as_str(), banco));
        if conta && texto::str_igual(c.0.as_str(), stack) && texto::str_igual(c.1.as_str(), svc) {
            proof {
                lema_uso_ultimo(cs@, app@, banco@, (stack@, svc@), k - 1);
            }
            return Some(c.2);
        }
        k = k - 1;
    }
    proof {
        lema_uso_ausente(cs@, app@, banco@, (stack@, svc@));
    }
    None
}

} // verus!

verus! {

/// O que as consultas trouxeram: as series de banco, replica e sonda, as
/// chaves do historico de disponibilidade (na ordem em que chegaram) e o
/// consumo de cada container conhecido, como (stack, servico, consumo).
pub struct Coleta<V, U> {
    pub prim: Vec<Serie<V>>,
    pub rep_io: Vec<Serie<V>>,
    pub rep_sql: Vec<Serie<V>>,
    pub rep_lag: Vec<Serie<V>>,
    pub sonda: Vec<Serie<V>>,
    pub atraso: Vec<Serie<V>>,
    pub hist: Vec<String>,
    pub uso: Vec<(String, String, U)>,
}

/// Uma linha por tenant, com o valor de cada serie que o cita.
pub struct LinhaTenant<V, U> {
    pub tenant: String,
    /// Sigla do no onde roda o banco primario.
    pub no: String,
    /// Sigla do no da replica, ou `-` sem replica.
    pub no_rep: String,
    /// O valor de `mysql_up` do tenant.
    pub prim: V,
    pub rep_io: Option<V>,
    pub rep_sql: Option<V>,
    pub rep_lag: Option<V>,
    pub site: Option<V>,
    pub latencia: Option<V>,
    pub app: Option<U>,
    pub db: Option<U>,
    /// Posicao, nas chaves do historico, da ultima que e deste tenant.
    pub hist: Option<usize>,
}

/// Ultima posicao de cada chave.
pub open spec fn indices(hs: Seq<Seq<char>>) -> Map<Seq<char>, usize>
    decreases hs.len(),
{
    if hs.len() == 0 {
        Map::empty()
    } else {
        indices(hs.drop_last()).insert(hs.last(), (hs.len() - 1) as usize)
    }
}

proof fn lema_indices(hs: Seq<Seq<char>>, t: Seq<char>, k: int)
    requires
        -1 <= k < hs.len(),
        k >= 0 ==> hs[k] == t,
        forall|j: int| k < j < hs.len() ==> hs[j] != t,
    ensures
        busca(indices(hs), t) == (if k >= 0 {
            Some(k as usize)
        } else {
            None::<usize>
        }),
    decreases hs.len(),
{
    if hs.len() > 0 && k < hs.len() - 1 {
        lema_indices(hs.drop_last(), t, k);
    }
}

fn indice_de(hs: &Vec<String>, t: &str) -> (r: Option<usize>)
    ensures
        r == busca(indices(texto::vistas(hs@)), t@),
{
    let mut k = hs.len();
    while k > 0
        invariant
            k <= hs.len(),
            forall|j: int| k <= j < hs.len() ==> #[trigger] hs@[j]@ != t@,
        decreases k,
    {
        if texto::str_igual(hs[k - 1].as_str(), t) {
            proof {
                lema_indices(texto::vistas(hs@), t@, k - 1);
            }
            return Some(k - 1);
        }
        k = k - 1;
    }
    proof {
        lema_indices(texto::vistas(hs@), t@, -1);
    }
    None
}

/// O que a linha de um tenant deve trazer.
pub open spec fn linha_conforme<V, U>(
    l: LinhaTenant<V, U>,
    c: ClusterCfg,
    nos: Seq<No>,
    d: Coleta<V, U>,
) -> bool {
    let t = l.tenant@;
    let lt = c.label_tenant@;
    let tem_rep = mapa_por(d.rep_io@, lt).contains_key(t);
    let uso = uso_spec(d.uso@, c.servico_app@, c.servico_banco@);
    &&& busca(mapa_por(d.prim@, lt), t) == Some(l.prim)
    &&& l.no@ == sigla_spec(
        match busca(caixas(d.prim@, lt, c.label_box@), t) {
            Some(x) => x,
            None => Seq::empty(),
        },
        nos,
    )
    &&& l.no_rep@ == (if tem_rep {
        sigla_spec(
            match busca(caixas(d.rep_io@, lt, c.label_box@), t) {
                Some(x) => x,
                None => Seq::empty(),
            },
            nos,
        )
    } else {
        "-"@
    })
    &&& l.rep_io == busca(mapa_por(d.rep_io@, lt), t)
    &&& l.rep_sql == busca(mapa_por(d.rep_sql@, lt), t)
    &&& l.rep_lag == busca(mapa_por(d.rep_lag@, lt), t)
    &&& l.site == busca(mapa_por(d.sonda@, "instance"@), t)
    &&& l.latencia == busca(mapa_por(d.atraso@, "instance"@), t)
    &&& l.app == (if c.servico_app@.len() == 0 {
        None
    } else {
        busca(uso, (t, c.servico_app@))
    })
    &&& l.db == (if c.servico_banco@.len() == 0 {
        None
    } else {
        busca(uso, (t, c.servico_banco@))
    })
    &&& l.hist == busca(indices(texto::vistas(d.hist@)), t)
}

/// Os tenants de um conjunto de series: o rotulo de tenant de cada uma.
pub open spec fn tenants_de<V>(s: Seq<Serie<V>>, lt: Seq<char>) -> Seq<Seq<char>> {
    s.map_values(|x: Serie<V>| rotulo_spec(x.rotulos, lt))
}

proof fn lema_dominio_mapa_por<V>(s: Seq<Serie<V>>, k: Seq<char>)
    ensures
        mapa_por(s, k).dom() == tenants_de(s, k).to_set(),
    decreases s.len(),
{
    if s.len() > 0 {
        lema_dominio_mapa_por(s.drop_last(), k);
        assert(tenants_de(s, k) =~= tenants_de(s.drop_last(), k).push(
            rotulo_spec(s.last().rotulos, k),
        ));
        tenants_de(s.drop_last(), k).lemma_push_to_set_commute(rotulo_spec(s.last().rotulos, k));
    } else {
        assert(tenants_de(s, k).to_set() =~= Set::empty());
    }
    assert(mapa_por(s, k).dom() =~= tenants_de(s, k).to_set());
}

fn linha_de<V: Copy, U: Copy>(
    t: String,
    c: &ClusterCfg,
    nos: &Vec<No>,
    d: &Coleta<V, U>,
) -> (r: Option<LinhaTenant<V, U>>)
    ensures
        match r {
            Some(l) => l.tenant@ == t@ && linha_conforme(l, *c, nos@, *d),
            None => !mapa_por(d.prim@, c.label_tenant@).contains_key(t@),
        },
{
    let lt = c.label_tenant.as_str();
    let prim = match valor_por(&d.prim, lt, t.as_str()) {
        Some(v) => v,
        None => {
            return None;
        },
    };
    let caixa = caixa_por(&d.prim, lt, c.label_box.as_str(), t.as_str());
    let no = sigla_da_caixa(caixa.as_str(), nos);
    let rep_io = valor_por(&d.rep_io, lt, t.as_str());
    let no_rep = if rep_io.is_some() {
        let caixa_rep = caixa_por(&d.rep_io, lt, c.label_box.as_str(), t.as_str());
        sigla_da_caixa(caixa_rep.as_str(), nos)
    } else {
        "-".to_owned()
    };
    let app = if c.servico_app.as_str().is_empty() {
        None
    } else {
        uso_por(
            &d.uso,
            c.servico_app.as_str(),
            c.servico_banco.as_str(),
            t.as_str(),
            c.servico_app.as_str(),
        )
    };
    let db = if c.servico_banco.as_str().is_empty() {
        None
    } else {
        uso_por(
            &d.uso,
            c.servico_app.as_str(),
            c.servico_banco.as_str(),
            t.as_str(),
            c.servico_banco.as_str(),
        )
    };
    let l = LinhaTenant {
        no,
        no_rep,
        prim,
        rep_io,
        rep_sql: valor_por(&d.rep_sql, lt, t.as_str()),
        rep_lag: valor_por(&d.rep_lag, lt, t.as_str()),
        site: valor_por(&d.sonda, "instance", t.as_str()),
        latencia: valor_por(&d.atraso, "instance", t.as_str()),
        app,
        db,
        hist: indice_de(&d.hist, t.as_str()),
        tenant: t,
    };
    Some(l)
}

/// As linhas por tenant, em ordem de nome. Sem bloco de cluster na
/// configuracao, nada; sem nenhuma serie de banco, o Prometheus nao
/// respondeu.
pub fn buscar<V: Copy, U: Copy>(
    c: Option<&ClusterCfg>,
    nos: &Vec<No>,
    d: &Coleta<V, U>,
) -> (r: Result<Vec<LinhaTenant<V, U>>, String>)
    ensures
        c is None ==> (r matches Ok(l) && l.len() == 0),
        c is Some ==> (d.prim.len() == 0 <==> r is Err),
        r matches Err(e) ==> e@ == "sem resposta do Prometheus"@,
        c matches Some(c) ==> (r matches Ok(ls) ==> {
            let ts = ls@.map_values(|l: LinhaTenant<V, U>| l.tenant@);
            &&& texto::crescente(ts)
            &&& ts.to_set() == mapa_por(d.prim@, c.label_tenant@).dom().remove(Seq::empty())
            &&& forall|i: int| 0 <= i < ls.len() ==> linha_conforme(#[trigger] ls@[i], *c, nos@, *d)
        }),
{
    let c = match c {
        Some(c) => c,
        None => {
            return Ok(Vec::new());
        },
    };
    if d.prim.len() == 0 {
        return Err("sem resposta do Prometheus".to_owned());
    }
    let mut chaves: Vec<String> = Vec::new();
    let mut i: usize = 0;
    while i < d.prim.len()
        invariant
            i <= d.prim.len(),
            texto::vistas(chaves@) == tenants_de(d.prim@, c.label_tenant@).take(i as int),
        decreases d.prim.len() - i,
    {
        let ghost antes = texto::vistas(chaves@);
        let ghost ts = tenants_de(d.prim@, c.label_tenant@);
        let rot = d.prim[i].rotulos.rotulo(c.label_tenant.as_str());
        assert(rot@ == ts[i as int]);
        chaves.push(rot);
        assert(texto::vistas(chaves@) =~= antes.push(rot@));
        assert(ts.take(i + 1) =~= ts.take(i as int).push(ts[i as int]));
        i = i + 1;
    }
    assert(tenants_de(d.prim@, c.label_tenant@).take(d.prim.len() as int) =~= tenants_de(
        d.prim@,
        c.label_tenant@,
    ));
    let ordenados = texto::unicos(&chaves);
    proof {
        lema_dominio_mapa_por(d.prim@, c.label_tenant@);
    }
    let ghost dom = mapa_por(d.prim@, c.label_tenant@).dom();
    let mut linhas: Vec<LinhaTenant<V, U>> = Vec::new();
    let mut k: usize = 0;
    while k < ordenados.len()
        invariant
            k <= ordenados.len(),
            texto::crescente(texto::vistas(ordenados@)),
            texto::vistas(ordenados@).to_set() == dom,
            dom == mapa_por(d.prim@, c.label_tenant@).dom(),
            forall|i: int| 0 <= i < linhas.len() ==> linha_conforme(#[trigger] linhas@[i], *c, nos@, *d),
            linhas@.map_values(|l: LinhaTenant<V, U>| l.tenant@) == texto::vistas(
                ordenados@,
            ).take(k as int).filter(|s: Seq<char>| s.len() > 0),
        decreases ordenados.len() - k,
    {
        let t = ordenados[k].clone();
        let ghost antes = linhas@.map_values(|l: LinhaTenant<V, U>| l.tenant@);
        let ghost vs = texto::vistas(ordenados@);
        proof {
            assert(vs.take(k + 1) =~= vs.take(k as int).push(vs[k as int]));
            vs.take(k as int).lemma_filter_push(vs[k as int], |s: Seq<char>| s.len() > 0);
        }
        if !t.as_str().is_empty() {
            proof {
                assert(vs.contains(vs[k as int]));
                assert(vs.to_set().contains(t@));
            }
            match linha_de(t, c, nos, d) {
                Some(l) => {
                    linhas.push(l);
                    assert(linhas@.map_values(|l: LinhaTenant<V, U>| l.tenant@) =~= antes.push(
                        vs[k as int],
                    ));
                },
                None => {},
            }
        }
        k = k + 1;
    }
    proof {
        let vs = texto::vistas(ordenados@);
        let f = |s: Seq<char>| s.len() > 0;
        assert(vs.take(ordenados.len() as int) =~= vs);
        let ts = linhas@.map_values(|l: LinhaTenant<V, U>| l.tenant@);
        assert(ts == vs.filter(f));
        assert forall|a: int, b: int| 0 <= a < b < ts.len() implies texto::menor(
            #[trigger] ts[a],
            #[trigger] ts[b],
        ) by {
            lema_filtro_crescente(vs, f, a, b);
        }
        assert forall|x: Seq<char>| ts.to_set().contains(x) <==> dom.remove(Seq::empty()).contains(
            x,
        ) by {
            if ts.to_set().contains(x) {
                assert(ts.contains(x));
                assert(vs.filter(f).contains(x));
                vs.lemma_filter_contains_rev(f, x);
                let j = choose|j: int| 0 <= j < ts.len() && ts[j] == x;
                vs.lemma_filter_pred(f, j);
                assert(x.len() > 0);
                assert(x != Seq::<char>::empty());
                assert(vs.to_set().contains(x));
            }
            if dom.remove(Seq::empty()).contains(x) {
                assert(vs.to_set().contains(x));
                assert(vs.contains(x));
                let i = choose|i: int| 0 <= i < vs.len() && vs[i] == x;
                assert(x != Seq::<char>::empty());
                assert(x.len() > 0) by {
                    if x.len() == 0 {
                        assert(x =~= Seq::<char>::empty());
                    }
                }
                assert(f(vs[i]));
                vs.lemma_filter_contains(f, i);
                assert(vs.filter(f).contains(x));
                assert(ts.contains(x));
            }
        }
        assert(ts.to_set() =~= dom.remove(Seq::empty()));
    }
    Ok(linhas)
}

/// Filtrar uma sequencia crescente mantem a ordem.
proof fn lema_filtro_crescente(vs: Seq<Seq<char>>, f: spec_fn(Seq<char>) -> bool, a: int, b: int)
    requires
        texto::crescente(vs),
        0 <= a < b < vs.filter(f).len(),
    ensures
        texto::menor(vs.filter(f)[a], vs.filter(f)[b]),
    decreases vs.len(),
{
    reveal(Seq::filter);
    vs.lemma_filter_len(f);
    let fl = vs.filter(f);
    let d = vs.drop_last();
    assert(texto::crescente(d)) by {
        assert forall|i: int, j: int| 0 <= i < j < d.len() implies texto::menor(
            #[trigger] d[i],
            #[trigger] d[j],
        ) by {
            assert(d[i] == vs[i] && d[j] == vs[j]);
        }
    }
    d.lemma_filter_len(f);
    if f(vs.last()) {
        assert(fl == d.filter(f).push(vs.last()));
        if b < fl.len() - 1 {
            lema_filtro_crescente(d, f, a, b);
        } else {
            let df = d.filter(f);
            assert(df[a] == fl[a]);
            assert(df.contains(fl[a]));
            d.lemma_filter_contains_rev(f, fl[a]);
            let i = choose|i: int| 0 <= i < d.len() && d[i] == fl[a];
            assert(vs[i] == d[i]);
            assert(texto::menor(vs[i], vs[vs.len() - 1]));
        }
    } else {
        assert(fl == d.filter(f));
        lema_filtro_crescente(d, f, a, b);
    }
}

} // verus!

verus! {

/// A consulta PromQL da metrica filtrada pelo job: `metrica{job="job"}`.
pub open spec fn consulta_spec(metrica: Seq<char>, job: Seq<char>) -> Seq<char> {
    metrica + "{job=\""@ + job + "\"}"@
}

pub fn consulta(metrica: &str, job: &str) -> (r: String)
    ensures
        r@ == consulta_spec(metrica@, job@),
{
    let mut v = texto::chars_de(metrica);
    texto::junta_str(&mut v, "{job=\"");
    texto::junta_str(&mut v, job);
    texto::junta_str(&mut v, "\"}");
    texto::string_de(&v)
}

/// O passo da consulta de intervalo da faixa de disponibilidade, em
/// segundos: a janela (em minutos) repartida pelos blocos, nunca abaixo de
/// 15 s.
pub open spec fn passo_sonda_spec(janela: int, blocos: nat) -> int {
    let b = if blocos == 0 {
        1
    } else {
        blocos as int
    };
    let q = if janela * 60 >= 0 {
        (janela * 60) / b
    } else {
        -((-(janela * 60)) / b)
    };
    if q < 15 {
        15
    } else {
        q
    }
}

pub fn passo_sonda(janela: i64, blocos: usize) -> (r: i64)
    requires
        i64::MIN <= janela * 60 <= i64::MAX,
        blocos <= i64::MAX,
    ensures
        r == passo_sonda_spec(janela as int, blocos as nat),
{
    let b: i64 = if blocos == 0 {
        1
    } else {
        blocos as i64
    };
    let q = janela * 60 / b;
    if q < 15 {
        15
    } else {
        q
    }
}

/// Uma faixa de disponibilidade por tenant: o tenant no rotulo `instance`
/// de cada serie (as sem ele ficam de fora) e os ultimos `blocos` valores.
pub open spec fn historicos_spec<V>(s: Seq<Serie<Vec<V>>>, blocos: nat) -> Seq<(Seq<char>, Seq<V>)>
    decreases s.len(),
{
    if s.len() == 0 {
        Seq::empty()
    } else {
        let antes = historicos_spec(s.drop_last(), blocos);
        let t = rotulo_spec(s.last().rotulos, "instance"@);
        if t.len() == 0 {
            antes
        } else {
            antes.push((t, crate::historico::ultimos(s.last().valor@, blocos)))
        }
    }
}

pub fn historicos<V: Copy>(series: &Vec<Serie<Vec<V>>>, blocos: usize) -> (r: Vec<(String, Vec<V>)>)
    ensures
        r@.map_values(|p: (String, Vec<V>)| (p.0@, p.1@)) == historicos_spec(series@, blocos as nat),
{
    let mut r: Vec<(String, Vec<V>)> = Vec::new();
    let mut k: usize = 0;
    while k < series.len()
        invariant
            k <= series.len(),
            r@.map_values(|p: (String, Vec<V>)| (p.0@, p.1@)) == historicos_spec(
                series@.subrange(0, k as int),
                blocos as nat,
            ),
        decreases series.len() - k,
    {
        let ghost antes = r@;
        let t = series[k].rotulos.rotulo("instance");
        assert(series@.subrange(0, k + 1).drop_last() =~= series@.subrange(0, k as int));
        if t.as_str().unicode_len() > 0 {
            let c = crate::historico::cauda(&series[k].valor, blocos);
            r.push((t, c));
            assert(r@.map_values(|p: (String, Vec<V>)| (p.0@, p.1@)) =~= antes.map_values(
                |p: (String, Vec<V>)| (p.0@, p.1@),
            ).push((t@, c@)));
        }
        k = k + 1;
    }
    assert(series@.subrange(0, series.len() as int) =~= series@);
    r
}

} // verus!

verus! {

/// O estado da vista por tenant: as ultimas linhas boas, o erro da ultima
/// coleta (vazio se deu certo) e quando veio a ultima coleta boa.
pub struct Cluster<L, T> {
    pub tenants: Vec<L>,
    pub erro: String,
    pub atualizado: Option<T>,
}

impl<L, T> Cluster<L, T> {
    /// Nada coletado ainda.
    pub fn novo() -> (c: Cluster<L, T>)
        ensures
            c.tenants@.len() == 0,
            c.erro@.len() == 0,
            c.atualizado is None,
    {
        Cluster { tenants: Vec::new(), erro: String::new(), atualizado: None }
    }

    /// Registra o resultado de uma coleta feita no instante `agora`: a que
    /// deu certo troca as linhas, limpa o erro e marca a hora; a que falhou
    /// so guarda o erro, e as linhas boas de antes continuam na tela.
    pub fn aplicar(&mut self, r: Result<Vec<L>, String>, agora: T)
        ensures
            match r {
                Ok(ls) => {
                    &&& final(self).tenants@ == ls@
                    &&& final(self).erro@.len() == 0
                    &&& final(self).atualizado == Some(agora)
                },
                Err(e) => {
                    &&& final(self).tenants@ == old(self).tenants@
                    &&& final(self).erro@ == e@
                    &&& final(self).atualizado == old(self).atualizado
                },
            },
    {
        match r {
            Ok(linhas) => {
                self.tenants = linhas;
                self.erro = String::new();
                self.atualizado = Some(agora);
            },
            Err(e) => {
                self.erro = e;
            },
        }
    }
}

} // verus!

verus! {

/// A sigla de uma caixa e a do primeiro no que a declara: a sigla
/// configurada, ou as tres primeiras letras do nome quando ela falta. Caixa
/// vazia, ou que nenhum no declara, da `?`.
pub proof fn lei_sigla_da_caixa(caixa: Seq<char>, nos: Seq<No>, k: int)
    requires
        0 <= k <= nos.len(),
        forall|i: int| 0 <= i < k ==> (#[trigger] nos[i]).caixa@ != caixa,
        k < nos.len() ==> nos[k].caixa@ == caixa,
    ensures
        caixa.len() == 0 ==> sigla_spec(caixa, nos) == "?"@,
        k == nos.len() ==> sigla_spec(caixa, nos) == "?"@,
        caixa.len() > 0 && k < nos.len() ==> sigla_spec(caixa, nos) == if nos[k].sigla@.len() > 0 {
            nos[k].sigla@
        } else if nos[k].nome@.len() <= 3 {
            nos[k].nome@
        } else {
            nos[k].nome@.take(3)
        },
{
    if caixa.len() > 0 {
        lema_sigla_desde(caixa, nos, 0, k);
        if k < nos.len() && nos[k].nome@.len() > 3 {
            assert(nos[k].nome@.take(3) =~= nos[k].nome@.subrange(0, 3));
        }
    }
}

proof fn lema_sigla_desde(caixa: Seq<char>, nos: Seq<No>, i: int, k: int)
    requires
        caixa.len() > 0,
        0 <= i <= k <= nos.len(),
        forall|j: int| i <= j < k ==> (#[trigger] nos[j]).caixa@ != caixa,
        k < nos.len() ==> nos[k].caixa@ == caixa,
    ensures
        sigla_desde(caixa, nos, i) == if k < nos.len() {
            if nos[k].sigla@.len() == 0 {
                tres(nos[k].nome@)
            } else {
                nos[k].sigla@
            }
        } else {
            "?"@
        },
    decreases k - i,
{
    if i < k {
        lema_sigla_desde(caixa, nos, i + 1, k);
    }
}

/// O valor de um tenant e o da ultima serie que traz o rotulo com esse
/// valor; sem nenhuma, nao ha valor.
pub proof fn lei_valor_por<V>(s: Seq<Serie<V>>, chave: Seq<char>, alvo: Seq<char>, k: int)
    requires
        -1 <= k < s.len(),
        k >= 0 ==> rotulo_spec(s[k].rotulos, chave) == alvo,
        forall|j: int| k < j < s.len() ==> rotulo_spec(#[trigger] s[j].rotulos, chave) != alvo,
    ensures
        busca(mapa_por(s, chave), alvo) == if k >= 0 {
            Some(s[k].valor)
        } else {
            None::<V>
        },
{
    if k >= 0 {
        lema_mapa_por_ultimo(s, chave, alvo, k);
    } else {
        lema_mapa_por_ausente(s, chave, alvo);
    }
}

/// A caixa de um tenant e o rotulo de caixa da ultima serie que o cita; sem
/// nenhuma, nao ha caixa.
pub proof fn lei_caixa_por<V>(s: Seq<Serie<V>>, ka: Seq<char>, kb: Seq<char>, alvo: Seq<char>, k: int)
    requires
        -1 <= k < s.len(),
        k >= 0 ==> rotulo_spec(s[k].rotulos, ka) == alvo,
        forall|j: int| k < j < s.len() ==> rotulo_spec(#[trigger] s[j].rotulos, ka) != alvo,
    ensures
        busca(caixas(s, ka, kb), alvo) == if k >= 0 {
            Some(rotulo_spec(s[k].rotulos, kb))
        } else {
            None::<Seq<char>>
        },
{
    if k >= 0 {
        lema_caixas_ultimo(s, ka, kb, alvo, k);
    } else {
        lema_caixas_ausente(s, ka, kb, alvo);
    }
}

/// O consumo de (stack, servico) e o do ultimo container de Swarm com esse
/// par, contado so quando o servico e o da aplicacao ou o do banco.
pub proof fn lei_uso_por<U>(
    cs: Seq<(String, String, U)>,
    app: Seq<char>,
    banco: Seq<char>,
    stack: Seq<char>,
    svc: Seq<char>,
    k: int,
)
    requires
        -1 <= k < cs.len(),
        k >= 0 ==> cs[k].0@ == stack && cs[k].1@ == svc,
        forall|j: int| k < j < cs.len() ==> !((#[trigger] cs[j]).0@ == stack && cs[j].1@ == svc),
    ensures
        busca(uso_spec(cs, app, banco), (stack, svc)) == if k >= 0 && stack.len() > 0 && (svc == app
            || svc == banco) {
            Some(cs[k].2)
        } else {
            None::<U>
        },
{
    if k >= 0 && stack.len() > 0 && (svc == app || svc == banco) {
        lema_uso_ultimo(cs, app, banco, (stack, svc), k);
    } else {
        assert forall|j: int|
            0 <= j < cs.len() implies !(conta_uso((cs[j].0@, cs[j].1@), app, banco) && (
            #[trigger] cs[j].0@, cs[j].1@) == (stack, svc)) by {}
        lema_uso_ausente(cs, app, banco, (stack, svc));
    }
}

/// A posicao de um tenant nas chaves do historico e a da ultima chave igual
/// a ele; sem nenhuma, nao ha posicao.
pub proof fn lei_indice_do_historico(hs: Seq<Seq<char>>, t: Seq<char>, k: int)
    requires
        -1 <= k < hs.len(),
        k >= 0 ==> hs[k] == t,
        forall|j: int| k < j < hs.len() ==> hs[j] != t,
    ensures
        busca(indices(hs), t) == if k >= 0 {
            Some(k as usize)
        } else {
            None::<usize>
        },
{
    lema_indices(hs, t, k);
}

/// Uma coluna a mais de largura `w` alarga a tabela natural em `w + 3`: o
/// conteudo, um espaco de cada lado e uma borda; sem colunas resta a borda.
pub proof fn lei_largura_natural(ls: Seq<usize>, w: usize)
    ensures
        largura_natural_spec(Seq::empty()) == 1,
        largura_natural_spec(ls.push(w)) == largura_natural_spec(ls) + w + 3,
{
    assert(ls.push(w).drop_last() =~= ls);
}

/// O passo da faixa nunca fica abaixo de 15 s; acima disso, os blocos com
/// esse passo cabem na janela e um bloco a mais ja nao cabe.
pub proof fn lei_passo_sonda(janela: int, blocos: nat)
    requires
        blocos > 0,
    ensures
        passo_sonda_spec(janela, blocos) >= 15,
        janela * 60 >= 15 * blocos ==> passo_sonda_spec(janela, blocos) * blocos <= janela * 60 < (
        passo_sonda_spec(janela, blocos) + 1) * blocos,
        janela * 60 < 15 * blocos ==> passo_sonda_spec(janela, blocos) == 15,
{
    let w = janela * 60;
    if w >= 0 {
        let q = w / (blocos as int);
        assert(q * blocos <= w < (q + 1) * blocos) by (nonlinear_arith)
            requires
                blocos > 0,
                q == w / (blocos as int),
                w >= 0,
        ;
        if w >= 15 * blocos {
            assert(q >= 15) by (nonlinear_arith)
                requires
                    blocos > 0,
                    w >= 15 * blocos,
                    w < (q + 1) * blocos,
            ;
        } else {
            assert(q < 15) by (nonlinear_arith)
                requires
                    blocos > 0,
                    w < 15 * blocos,
                    q * blocos <= w,
            ;
        }
    } else {
        let q = (-w) / (blocos as int);
        assert(q >= 0) by (nonlinear_arith)
            requires
                blocos > 0,
                q == (-w) / (blocos as int),
                w < 0,
        ;
    }
}

/// As faixas de disponibilidade sao, na ordem das series, uma por serie com
/// o rotulo `instance` preenchido: esse rotulo e os ultimos `blocos` valores.
pub proof fn lei_historicos<V>(s: Seq<Serie<Vec<V>>>, blocos: nat)
    ensures
        historicos_spec(s, blocos) == s.filter(
            |x: Serie<Vec<V>>| rotulo_spec(x.rotulos, "instance"@).len() > 0,
        ).map_values(
            |x: Serie<Vec<V>>|
                (rotulo_spec(x.rotulos, "instance"@), crate::historico::ultimos(x.valor@, blocos)),
        ),
    decreases s.len(),
{
    reveal(Seq::filter);
    if s.len() > 0 {
        lei_historicos(s.drop_last(), blocos);
        let f = |x: Serie<Vec<V>>| rotulo_spec(x.rotulos, "instance"@).len() > 0;
        let g = |x: Serie<Vec<V>>|
            (rotulo_spec(x.rotulos, "instance"@), crate::historico::ultimos(x.valor@, blocos));
        let d = s.drop_last().filter(f);
        if f(s.last()) {
            assert(s.filter(f) == d.push(s.last()));
            assert(d.push(s.last()).map_values(g) =~= d.map_values(g).push(g(s.last())));
        } else {
            assert(s.filter(f) == d);
        }
    }
}

} // verus!
