//! Tabelas montadas a mao: cabecalho pesado e regua entre as colunas, com
//! uma coluna que recebe a sobra de largura.
use vstd::prelude::*;

use crate::texto;

verus! {

/// `traco` repetido `n` vezes.
pub open spec fn repete(traco: Seq<char>, n: nat) -> Seq<char>
    decreases n,
{
    if n == 0 {
        Seq::empty()
    } else {
        repete(traco, (n - 1) as nat) + traco
    }
}

/// As colunas da regua, cada uma `l + 2` tracos seguida do separador (ou do
/// canto direito, na ultima).
pub open spec fn colunas_regua(
    ls: Seq<usize>,
    total: int,
    meio: Seq<char>,
    dir: Seq<char>,
    traco: Seq<char>,
) -> Seq<char>
    decreases ls.len(),
{
    if ls.len() == 0 {
        Seq::empty()
    } else {
        let i = ls.len() - 1;
        colunas_regua(ls.drop_last(), total, meio, dir, traco) + repete(traco, (ls.last() + 2) as nat)
            + (if i + 1 == total {
            dir
        } else {
            meio
        })
    }
}

/// Uma linha horizontal da tabela.
pub open spec fn regua_spec(
    ls: Seq<usize>,
    esq: Seq<char>,
    meio: Seq<char>,
    dir: Seq<char>,
    traco: Seq<char>,
) -> Seq<char> {
    esq + colunas_regua(ls, ls.len() as int, meio, dir, traco)
}

pub fn repete_em(v: &mut Vec<char>, traco: &str, n: usize)
    ensures
        final(v)@ == old(v)@ + repete(traco@, n as nat),
{
    let mut k: usize = 0;
    while k < n
        invariant
            k <= n,
            v@ == old(v)@ + repete(traco@, k as nat),
        decreases n - k,
    {
        texto::junta_str(v, traco);
        k = k + 1;
        assert(v@ =~= old(v)@ + repete(traco@, k as nat));
    }
}

pub fn regua(larguras: &Vec<usize>, esq: &str, meio: &str, dir: &str, traco: &str) -> (r: String)
    requires
        forall|i: int| 0 <= i < larguras.len() ==> larguras@[i] + 2 <= usize::MAX,
    ensures
        r@ == regua_spec(larguras@, esq@, meio@, dir@, traco@),
{
    let mut s: Vec<char> = Vec::new();
    texto::junta_str(&mut s, esq);
    let n = larguras.len();
    let mut i: usize = 0;
    assert(larguras@.take(0) =~= Seq::<usize>::empty());
    while i < n
        invariant
            i <= n == larguras.len(),
            forall|k: int| 0 <= k < larguras.len() ==> larguras@[k] + 2 <= usize::MAX,
            s@ == esq@ + colunas_regua(larguras@.take(i as int), n as int, meio@, dir@, traco@),
        decreases n - i,
    {
        let ghost antes = s@;
        repete_em(&mut s, traco, larguras[i] + 2);
        if i + 1 == n {
            texto::junta_str(&mut s, dir);
        } else {
            texto::junta_str(&mut s, meio);
        }
        proof {
            let t = larguras@.take(i + 1);
            assert(t.drop_last() =~= larguras@.take(i as int));
            assert(t.last() == larguras@[i as int]);
            assert(s@ =~= esq@ + colunas_regua(t, n as int, meio@, dir@, traco@));
        }
        i = i + 1;
    }
    assert(larguras@.take(n as int) =~= larguras@);
    texto::string_de(&s)
}

} // verus!

verus! {

/// Um pedaco de linha da tabela. Quem desenha troca cada pedaco pelo texto
/// com o estilo dele.
#[derive(Clone, Copy, PartialEq, Eq, Structural, Debug)]
pub enum Peca {
    /// Separador vertical: forte no cabecalho, fino no corpo.
    Borda(bool),
    /// Espacos em branco.
    Espacos(usize),
    /// O titulo da coluna.
    Titulo(usize),
    /// O conteudo da celula (linha, coluna).
    Celula(usize, usize),
}

/// A tabela pronta: as larguras finais, as tres reguas, o cabecalho e as
/// linhas do corpo em pedacos.
pub struct Grade {
    pub larguras: Vec<usize>,
    pub topo: String,
    pub titulos: Vec<Peca>,
    pub meio: String,
    pub corpo: Vec<Vec<Peca>>,
    pub base: String,
}

/// O conteudo com as colunas, um espaco de cada lado e as bordas.
pub open spec fn ocupado(ls: Seq<usize>) -> int {
    crate::cluster::largura_natural_spec(ls)
}

/// As larguras depois de a coluna flexivel receber a sobra.
pub open spec fn ajusta(ls: Seq<usize>, flexivel: int, total: int) -> Seq<usize> {
    if total > ocupado(ls) {
        ls.update(flexivel, (ls[flexivel] + total - ocupado(ls)) as usize)
    } else {
        ls
    }
}

proof fn lema_soma_troca(ls: Seq<usize>, f: int, v: usize)
    requires
        0 <= f < ls.len(),
    ensures
        crate::cluster::soma_colunas(ls.update(f, v)) == crate::cluster::soma_colunas(ls) - ls[f] + v,
    decreases ls.len(),
{
    if f == ls.len() - 1 {
        assert(ls.update(f, v).drop_last() =~= ls.drop_last());
    } else {
        lema_soma_troca(ls.drop_last(), f, v);
        assert(ls.update(f, v).drop_last() =~= ls.drop_last().update(f, v));
    }
}

/// Com a sobra dada a coluna flexivel, a tabela ocupa exatamente a largura
/// pedida; se a largura pedida nao passa da natural, a tabela fica como e.
pub proof fn lei_tabela_ocupa_a_largura(ls: Seq<usize>, flexivel: int, total: int)
    requires
        total > ocupado(ls) ==> 0 <= flexivel < ls.len() && ls[flexivel] + total - ocupado(ls)
            <= usize::MAX,
    ensures
        ocupado(ajusta(ls, flexivel, total)) == if total > ocupado(ls) {
            total
        } else {
            ocupado(ls)
        },
        ajusta(ls, flexivel, total).len() == ls.len(),
{
    if total > ocupado(ls) {
        lema_soma_troca(ls, flexivel, (ls[flexivel] + total - ocupado(ls)) as usize);
    }
}

/// A celula de conteudo com largura `lc`, alinhada numa coluna de largura
/// `w`: a folga vai antes, se alinhada a direita, ou depois.
pub open spec fn preenche(p: Peca, lc: int, direita: bool, w: int) -> Seq<Peca> {
    let folga = if w > lc {
        w - lc
    } else {
        0
    };
    let antes = if direita {
        folga
    } else {
        0
    };
    let depois = if direita {
        0
    } else {
        folga
    };
    (if antes > 0 {
        seq![Peca::Espacos(antes as usize)]
    } else {
        Seq::empty()
    }) + seq![p] + (if depois > 0 {
        seq![Peca::Espacos(depois as usize)]
    } else {
        Seq::empty()
    })
}

/// As celulas de uma linha, cada uma com um espaco de cada lado e a borda
/// depois.
pub open spec fn celulas_linha(
    cs: Seq<(usize, bool)>,
    ws: Seq<usize>,
    mk: spec_fn(int) -> Peca,
    forte: bool,
) -> Seq<Peca>
    decreases cs.len(),
{
    if cs.len() == 0 {
        Seq::empty()
    } else {
        let j = cs.len() - 1;
        celulas_linha(cs.drop_last(), ws, mk, forte) + seq![Peca::Espacos(1)] + preenche(
            mk(j),
            cs.last().0 as int,
            cs.last().1,
            ws[j] as int,
        ) + seq![Peca::Espacos(1), Peca::Borda(forte)]
    }
}

/// A linha de cabecalho: o titulo segue o alinhamento da primeira linha do
/// corpo.
pub open spec fn linha_titulos(
    titulos: Seq<Seq<char>>,
    direita: Seq<bool>,
    ws: Seq<usize>,
) -> Seq<Peca> {
    seq![Peca::Borda(true)] + celulas_linha(
        Seq::new(titulos.len(), |i: int| (titulos[i].len() as usize, direita[i])),
        ws,
        |i: int| Peca::Titulo(i as usize),
        true,
    )
}

pub open spec fn linha_corpo(cs: Seq<(usize, bool)>, ws: Seq<usize>, k: int) -> Seq<Peca> {
    seq![Peca::Borda(false)] + celulas_linha(cs, ws, |j: int| Peca::Celula(k as usize, j as usize), false)
}

/// O alinhamento de cada coluna, tirado da primeira linha do corpo.
pub open spec fn alinhamento(corpo: Seq<Vec<(usize, bool)>>, n: int) -> Seq<bool> {
    Seq::new(
        n as nat,
        |i: int|
            if corpo.len() > 0 {
                corpo[0]@[i].1
            } else {
                false
            },
    )
}

} // verus!

verus! {

fn preenche_em(v: &mut Vec<Peca>, p: Peca, lc: usize, direita: bool, w: usize)
    ensures
        final(v)@ == old(v)@ + preenche(p, lc as int, direita, w as int),
{
    let folga = if w > lc {
        w - lc
    } else {
        0
    };
    let antes = if direita {
        folga
    } else {
        0
    };
    let depois = if direita {
        0
    } else {
        folga
    };
    if antes > 0 {
        v.push(Peca::Espacos(antes));
    }
    v.push(p);
    if depois > 0 {
        v.push(Peca::Espacos(depois));
    }
    assert(v@ =~= old(v)@ + preenche(p, lc as int, direita, w as int));
}

fn linha_de(
    cs: &Vec<(usize, bool)>,
    ws: &Vec<usize>,
    Ghost(mk): Ghost<spec_fn(int) -> Peca>,
    titulo: bool,
    k: usize,
    forte: bool,
) -> (r: Vec<Peca>)
    requires
        cs.len() <= ws.len(),
        forall|j: int| #[trigger] mk(j) == (if titulo {
            Peca::Titulo(j as usize)
        } else {
            Peca::Celula(k, j as usize)
        }),
    ensures
        r@ == seq![Peca::Borda(forte)] + celulas_linha(cs@, ws@, mk, forte),
{
    let mut v: Vec<Peca> = Vec::new();
    v.push(Peca::Borda(forte));
    let mut j: usize = 0;
    assert(cs@.take(0) =~= Seq::<(usize, bool)>::empty());
    while j < cs.len()
        invariant
            j <= cs.len() <= ws.len(),
            forall|i: int| #[trigger] mk(i) == (if titulo {
                Peca::Titulo(i as usize)
            } else {
                Peca::Celula(k, i as usize)
            }),
            v@ == seq![Peca::Borda(forte)] + celulas_linha(cs@.take(j as int), ws@, mk, forte),
        decreases cs.len() - j,
    {
        let p = if titulo {
            Peca::Titulo(j)
        } else {
            Peca::Celula(k, j)
        };
        let ghost antes = v@;
        v.push(Peca::Espacos(1));
        preenche_em(&mut v, p, cs[j].0, cs[j].1, ws[j]);
        v.push(Peca::Espacos(1));
        v.push(Peca::Borda(forte));
        proof {
            let t = cs@.take(j + 1);
            assert(t.drop_last() =~= cs@.take(j as int));
            assert(t.last() == cs@[j as int]);
            assert(mk(j as int) == p);
            assert(v@ =~= seq![Peca::Borda(forte)] + celulas_linha(t, ws@, mk, forte));
        }
        j = j + 1;
    }
    assert(cs@.take(cs.len() as int) =~= cs@);
    v
}

/// Monta a tabela. `larguras` fixa cada coluna; a de indice `flexivel`
/// recebe a sobra pra tabela ocupar `largura_total`. O cabecalho segue o
/// alinhamento da primeira linha do corpo.
pub fn tabela(
    titulos: &[&str],
    larguras: &Vec<usize>,
    flexivel: usize,
    corpo: &Vec<Vec<(usize, bool)>>,
    largura_total: usize,
) -> (g: Grade)
    requires
        titulos@.len() <= larguras.len(),
        corpo.len() > 0 ==> corpo@[0].len() >= larguras.len(),
        forall|k: int| 0 <= k < corpo.len() ==> #[trigger] corpo@[k].len() <= larguras.len(),
        ocupado(larguras@) <= usize::MAX,
        largura_total > ocupado(larguras@) ==> flexivel < larguras.len() && larguras@[flexivel as int]
            + largura_total - ocupado(larguras@) <= usize::MAX,
        forall|i: int|
            0 <= i < larguras.len() ==> #[trigger] ajusta(larguras@, flexivel as int, largura_total as int)[i]
                + 2 <= usize::MAX,
    ensures
        g.larguras@ == ajusta(larguras@, flexivel as int, largura_total as int),
        g.topo@ == regua_spec(g.larguras@, "\u{250f}"@, "\u{2533}"@, "\u{2513}"@, "\u{2501}"@),
        g.meio@ == regua_spec(g.larguras@, "\u{2521}"@, "\u{2547}"@, "\u{2529}"@, "\u{2501}"@),
        g.base@ == regua_spec(g.larguras@, "\u{2514}"@, "\u{2534}"@, "\u{2518}"@, "\u{2500}"@),
        g.titulos@ == linha_titulos(
            titulos@.map_values(|t: &str| t@),
            alinhamento(corpo@, larguras.len() as int),
            g.larguras@,
        ),
        g.corpo.len() == corpo.len(),
        forall|k: int|
            0 <= k < corpo.len() ==> #[trigger] g.corpo@[k]@ == linha_corpo(corpo@[k]@, g.larguras@, k),
{
    let ocup = crate::cluster::largura_natural(larguras);
    let mut ls = larguras.clone();
    assert(ls@ =~= larguras@);
    if largura_total > ocup {
        let novo = ls[flexivel] + (largura_total - ocup);
        assert(novo == ajusta(larguras@, flexivel as int, largura_total as int)[flexivel as int]);
        ls.set(flexivel, novo);
    }
    assert(ls@ =~= ajusta(larguras@, flexivel as int, largura_total as int));
    let topo = regua(&ls, "\u{250f}", "\u{2533}", "\u{2513}", "\u{2501}");
    let meio = regua(&ls, "\u{2521}", "\u{2547}", "\u{2529}", "\u{2501}");
    let base = regua(&ls, "\u{2514}", "\u{2534}", "\u{2518}", "\u{2500}");
    let ghost dir = alinhamento(corpo@, larguras.len() as int);
    let ghost tv = titulos@.map_values(|t: &str| t@);
    let mut cab: Vec<(usize, bool)> = Vec::new();
    let mut i: usize = 0;
    while i < titulos.len()
        invariant
            i <= titulos@.len() <= larguras.len(),
            corpo.len() > 0 ==> corpo@[0].len() >= larguras.len(),
            dir == alinhamento(corpo@, larguras.len() as int),
            tv == titulos@.map_values(|t: &str| t@),
            cab@ == Seq::new(i as nat, |k: int| (tv[k].len() as usize, dir[k])),
        decreases titulos@.len() - i,
    {
        let lc = crate::texto::chars_de(titulos[i]).len();
        let d = if corpo.len() > 0 {
            corpo[0][i].1
        } else {
            false
        };
        cab.push((lc, d));
        i = i + 1;
        assert(cab@ =~= Seq::new(i as nat, |k: int| (tv[k].len() as usize, dir[k])));
    }
    assert(cab@ =~= Seq::new(tv.len(), |k: int| (tv[k].len() as usize, dir[k])));
    let ghost mk_t = |j: int| Peca::Titulo(j as usize);
    let tits = linha_de(&cab, &ls, Ghost(mk_t), true, 0, true);
    let mut linhas: Vec<Vec<Peca>> = Vec::new();
    let mut k: usize = 0;
    while k < corpo.len()
        invariant
            k <= corpo.len(),
            ls@.len() == larguras.len(),
            forall|q: int| 0 <= q < corpo.len() ==> #[trigger] corpo@[q].len() <= larguras.len(),
            linhas.len() == k,
            forall|q: int| 0 <= q < k ==> #[trigger] linhas@[q]@ == linha_corpo(corpo@[q]@, ls@, q),
        decreases corpo.len() - k,
    {
        let ghost mk = |j: int| Peca::Celula(k, j as usize);
        assert(corpo@[k as int].len() <= larguras.len());
        let l = linha_de(&corpo[k], &ls, Ghost(mk), false, k, false);
        linhas.push(l);
        k = k + 1;
    }
    Grade { larguras: ls, topo, titulos: tits, meio, corpo: linhas, base }
}

} // verus!

verus! {

/// A largura na tela de um pedaco: a borda ocupa uma coluna, os espacos o
/// seu numero, o titulo o numero de caracteres e a celula a largura que quem
/// monta deu a ela.
pub open spec fn largura_de(p: Peca, titulos: Seq<Seq<char>>, corpo: Seq<Seq<(usize, bool)>>) -> int {
    match p {
        Peca::Borda(_) => 1,
        Peca::Espacos(n) => n as int,
        Peca::Titulo(j) => titulos[j as int].len() as int,
        Peca::Celula(k, j) => corpo[k as int][j as int].0 as int,
    }
}

/// A largura de uma linha de pedacos.
pub open spec fn largura_linha(ps: Seq<Peca>, titulos: Seq<Seq<char>>, corpo: Seq<Seq<(usize, bool)>>) -> int
    decreases ps.len(),
{
    if ps.len() == 0 {
        0
    } else {
        largura_linha(ps.drop_last(), titulos, corpo) + largura_de(ps.last(), titulos, corpo)
    }
}

proof fn lema_largura_soma(
    a: Seq<Peca>,
    b: Seq<Peca>,
    titulos: Seq<Seq<char>>,
    corpo: Seq<Seq<(usize, bool)>>,
)
    ensures
        largura_linha(a + b, titulos, corpo) == largura_linha(a, titulos, corpo) + largura_linha(
            b,
            titulos,
            corpo,
        ),
    decreases b.len(),
{
    if b.len() == 0 {
        assert(a + b =~= a);
    } else {
        lema_largura_soma(a, b.drop_last(), titulos, corpo);
        assert((a + b).drop_last() =~= a + b.drop_last());
        assert((a + b).last() == b.last());
    }
}

proof fn lema_largura_celulas(
    cs: Seq<(usize, bool)>,
    ws: Seq<usize>,
    mk: spec_fn(int) -> Peca,
    forte: bool,
    titulos: Seq<Seq<char>>,
    corpo: Seq<Seq<(usize, bool)>>,
)
    requires
        cs.len() <= ws.len(),
        forall|j: int| 0 <= j < cs.len() ==> #[trigger] largura_de(mk(j), titulos, corpo) == cs[j].0,
        forall|j: int| 0 <= j < cs.len() ==> #[trigger] cs[j].0 <= ws[j],
    ensures
        largura_linha(celulas_linha(cs, ws, mk, forte), titulos, corpo) == crate::cluster::soma_colunas(
            ws.take(cs.len() as int),
        ) + cs.len(),
    decreases cs.len(),
{
    if cs.len() == 0 {
        assert(ws.take(0) =~= Seq::<usize>::empty());
    } else {
        let j = cs.len() - 1;
        let c0 = cs.drop_last();
        lema_largura_celulas(c0, ws, mk, forte, titulos, corpo);
        let pre = celulas_linha(c0, ws, mk, forte);
        let p = preenche(mk(j), cs.last().0 as int, cs.last().1, ws[j] as int);
        let fim = seq![Peca::Espacos(1), Peca::Borda(forte)];
        assert(celulas_linha(cs, ws, mk, forte) == pre + seq![Peca::Espacos(1)] + p + fim);
        lema_largura_soma(pre, seq![Peca::Espacos(1)], titulos, corpo);
        lema_largura_soma(pre + seq![Peca::Espacos(1)], p, titulos, corpo);
        lema_largura_soma(pre + seq![Peca::Espacos(1)] + p, fim, titulos, corpo);
        assert(largura_linha(seq![Peca::Espacos(1)], titulos, corpo) == 1) by {
            reveal_with_fuel(largura_linha, 2);
            assert(seq![Peca::Espacos(1)].drop_last() =~= Seq::<Peca>::empty());
        }
        assert(largura_linha(fim, titulos, corpo) == 2) by {
            reveal_with_fuel(largura_linha, 3);
            assert(fim.drop_last() =~= seq![Peca::Espacos(1)]);
            assert(seq![Peca::Espacos(1)].drop_last() =~= Seq::<Peca>::empty());
        }
        assert(largura_linha(p, titulos, corpo) == ws[j] as int) by {
            let lc = cs.last().0 as int;
            let w = ws[j] as int;
            let a = seq![Peca::Espacos((w - lc) as usize)];
            reveal_with_fuel(largura_linha, 2);
            assert(largura_de(mk(j), titulos, corpo) == lc);
            assert(seq![mk(j)].drop_last() =~= Seq::<Peca>::empty());
            assert(a.drop_last() =~= Seq::<Peca>::empty());
            if w > lc {
                if cs.last().1 {
                    assert(p =~= a + seq![mk(j)]);
                    lema_largura_soma(a, seq![mk(j)], titulos, corpo);
                } else {
                    assert(p =~= seq![mk(j)] + a);
                    lema_largura_soma(seq![mk(j)], a, titulos, corpo);
                }
            } else {
                assert(p =~= seq![mk(j)]);
            }
        }
        assert(ws.take(cs.len() as int).drop_last() =~= ws.take(j));
        assert(ws.take(cs.len() as int).last() == ws[j]);
    }
}

proof fn lema_repete(t: Seq<char>, n: nat)
    ensures
        repete(t, n).len() == n * t.len(),
    decreases n,
{
    if n > 0 {
        let m = (n - 1) as nat;
        lema_repete(t, m);
        assert(repete(t, n) == repete(t, m) + t);
        assert(m * t.len() + t.len() == n * t.len()) by (nonlinear_arith)
            requires
                n == m + 1,
        ;
    } else {
        assert(0 * t.len() == 0);
    }
}

proof fn lema_colunas_regua(ls: Seq<usize>, total: int, meio: Seq<char>, dir: Seq<char>, traco: Seq<char>)
    requires
        meio.len() == 1,
        dir.len() == 1,
        traco.len() == 1,
    ensures
        colunas_regua(ls, total, meio, dir, traco).len() == crate::cluster::soma_colunas(ls) + ls.len(),
    decreases ls.len(),
{
    if ls.len() > 0 {
        lema_colunas_regua(ls.drop_last(), total, meio, dir, traco);
        lema_repete(traco, (ls.last() + 2) as nat);
    }
}

/// Toda linha da tabela pronta tem a mesma largura na tela: a largura pedida,
/// ou a natural quando a pedida e menor. Vale quando cada titulo e cada
/// celula cabem na largura dada a sua coluna e toda linha do corpo tem uma
/// celula por coluna; as reguas, com pedacos de um caractere, tambem.
pub proof fn lei_tabela_linhas_na_largura(
    titulos: Seq<Seq<char>>,
    larguras: Seq<usize>,
    flexivel: int,
    total: int,
    corpo: Seq<Seq<(usize, bool)>>,
    direita: Seq<bool>,
)
    requires
        titulos.len() == larguras.len(),
        direita.len() == larguras.len(),
        larguras.len() <= usize::MAX,
        corpo.len() <= usize::MAX,
        forall|j: int| 0 <= j < titulos.len() ==> #[trigger] titulos[j].len() <= larguras[j],
        forall|k: int| 0 <= k < corpo.len() ==> #[trigger] corpo[k].len() == larguras.len(),
        forall|k: int, j: int|
            0 <= k < corpo.len() && 0 <= j < larguras.len() ==> #[trigger] corpo[k][j].0 <= larguras[j],
        total > ocupado(larguras) ==> 0 <= flexivel < larguras.len() && larguras[flexivel] + total - ocupado(
            larguras,
        ) <= usize::MAX,
    ensures
        ({
            let ws = ajusta(larguras, flexivel, total);
            let w = if total > ocupado(larguras) {
                total
            } else {
                ocupado(larguras)
            };
            &&& largura_linha(linha_titulos(titulos, direita, ws), titulos, corpo) == w
            &&& forall|k: int|
                0 <= k < corpo.len() ==> #[trigger] largura_linha(linha_corpo(corpo[k], ws, k), titulos, corpo)
                    == w
            &&& regua_spec(ws, "\u{250f}"@, "\u{2533}"@, "\u{2513}"@, "\u{2501}"@).len() == w
            &&& regua_spec(ws, "\u{2521}"@, "\u{2547}"@, "\u{2529}"@, "\u{2501}"@).len() == w
            &&& regua_spec(ws, "\u{2514}"@, "\u{2534}"@, "\u{2518}"@, "\u{2500}"@).len() == w
        }),
{
    let ws = ajusta(larguras, flexivel, total);
    lei_tabela_ocupa_a_largura(larguras, flexivel, total);
    assert forall|j: int| 0 <= j < larguras.len() implies larguras[j] <= #[trigger] ws[j] by {}
    assert(ws.take(ws.len() as int) =~= ws);
    let n = titulos.len();
    let cab = Seq::new(n, |i: int| (titulos[i].len() as usize, direita[i]));
    let mk_t = |i: int| Peca::Titulo(i as usize);
    assert forall|j: int| 0 <= j < cab.len() implies #[trigger] cab[j].0 <= ws[j] by {
        assert(titulos[j].len() <= larguras[j]);
        assert(larguras[j] <= ws[j]);
    }
    assert forall|j: int| 0 <= j < cab.len() implies #[trigger] largura_de(mk_t(j), titulos, corpo)
        == cab[j].0 by {
        assert((j as usize) as int == j);
    }
    lema_largura_celulas(cab, ws, mk_t, true, titulos, corpo);
    lema_largura_soma(seq![Peca::Borda(true)], celulas_linha(cab, ws, mk_t, true), titulos, corpo);
    assert(largura_linha(seq![Peca::Borda(true)], titulos, corpo) == 1) by {
        reveal_with_fuel(largura_linha, 2);
        assert(seq![Peca::Borda(true)].drop_last() =~= Seq::<Peca>::empty());
    }
    assert(ws.len() == n);
    assert(cab =~= Seq::new(titulos.len(), |i: int| (titulos[i].len() as usize, direita[i])));
    assert(mk_t =~= (|i: int| Peca::Titulo(i as usize)));
    assert(linha_titulos(titulos, direita, ws) == seq![Peca::Borda(true)] + celulas_linha(
        cab,
        ws,
        mk_t,
        true,
    ));
    assert forall|k: int| 0 <= k < corpo.len() implies #[trigger] largura_linha(
        linha_corpo(corpo[k], ws, k),
        titulos,
        corpo,
    ) == ocupado(ws) by {
        let mk = |j: int| Peca::Celula(k as usize, j as usize);
        assert forall|j: int| 0 <= j < corpo[k].len() implies #[trigger] largura_de(mk(j), titulos, corpo)
            == corpo[k][j].0 by {
            assert((j as usize) as int == j);
            assert((k as usize) as int == k);
        }
        assert forall|j: int| 0 <= j < corpo[k].len() implies #[trigger] corpo[k][j].0 <= ws[j] by {
            assert(corpo[k][j].0 <= larguras[j]);
            assert(larguras[j] <= ws[j]);
        }
        assert(corpo[k].len() == ws.len());
        lema_largura_celulas(corpo[k], ws, mk, false, titulos, corpo);
        assert(mk =~= (|j: int| Peca::Celula(k as usize, j as usize)));
        assert(linha_corpo(corpo[k], ws, k) == seq![Peca::Borda(false)] + celulas_linha(
            corpo[k],
            ws,
            mk,
            false,
        ));
        lema_largura_soma(seq![Peca::Borda(false)], celulas_linha(corpo[k], ws, mk, false), titulos, corpo);
        assert(largura_linha(seq![Peca::Borda(false)], titulos, corpo) == 1) by {
            reveal_with_fuel(largura_linha, 2);
            assert(seq![Peca::Borda(false)].drop_last() =~= Seq::<Peca>::empty());
        }
    }
    assert(largura_linha(linha_titulos(titulos, direita, ws), titulos, corpo) == ocupado(ws));
    reveal_strlit("\u{250f}");
    reveal_strlit("\u{2533}");
    reveal_strlit("\u{2513}");
    reveal_strlit("\u{2501}");
    reveal_strlit("\u{2521}");
    reveal_strlit("\u{2547}");
    reveal_strlit("\u{2529}");
    reveal_strlit("\u{2514}");
    reveal_strlit("\u{2534}");
    reveal_strlit("\u{2518}");
    reveal_strlit("\u{2500}");
    lema_colunas_regua(ws, ws.len() as int, "\u{2533}"@, "\u{2513}"@, "\u{2501}"@);
    lema_colunas_regua(ws, ws.len() as int, "\u{2547}"@, "\u{2529}"@, "\u{2501}"@);
    lema_colunas_regua(ws, ws.len() as int, "\u{2534}"@, "\u{2518}"@, "\u{2500}"@);
}

} // verus!
