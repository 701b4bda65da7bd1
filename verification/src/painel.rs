//! O diagrama da aba DIAGRAMA: tres blocos preenchidos com o nome vazado em
//! preto, cantos chanfrados apontando pro centro, e MAGI no meio. A cor do
//! bloco e o estado da unidade, entao a tela inteira muda de cor junto.
//!
//! O chanfro usa bloco de tres quadrantes e nao triangulo geometrico: o
//! triangulo nao preenche a celula na maioria das fontes e a diagonal sai
//! pontilhada, enquanto o quadrante fecha solido.
use vstd::prelude::*;

use crate::cfg::Cor;

verus! {

/// Falta o quadrante do canto cortado: o de cima a esquerda perde o
/// quadrante superior esquerdo, e assim por diante.
pub const CHANFRO_TL: char = '\u{259f}';
pub const CHANFRO_TR: char = '\u{2599}';
pub const CHANFRO_BL: char = '\u{259c}';
pub const CHANFRO_BR: char = '\u{259b}';

#[derive(Clone, Copy)]
pub struct Celula {
    pub ch: char,
    pub fg: Option<Cor>,
    pub bg: Option<Cor>,
}

pub open spec fn celula_vazia() -> Celula {
    Celula { ch: ' ', fg: None, bg: None }
}

/// Grade de celulas, linha a linha.
pub struct Tela {
    pub largura: usize,
    pub altura: usize,
    pub celulas: Vec<Vec<Celula>>,
}

impl Tela {
    pub open spec fn bem_formada(&self) -> bool {
        &&& self.celulas.len() == self.altura
        &&& forall|r: int| 0 <= r < self.altura ==> #[trigger] self.celulas@[r].len() == self.largura
    }

    /// A celula na linha `r`, coluna `c`; fora da grade, uma vazia.
    pub open spec fn cel(&self, r: int, c: int) -> Celula {
        if 0 <= r < self.altura && 0 <= c < self.largura {
            self.celulas@[r]@[c]
        } else {
            celula_vazia()
        }
    }

    pub fn nova(largura: usize, altura: usize) -> (t: Tela)
        ensures
            t.bem_formada(),
            t.largura == largura,
            t.altura == altura,
            forall|r: int, c: int| #[trigger] t.cel(r, c) == celula_vazia(),
    {
        let mut celulas: Vec<Vec<Celula>> = Vec::new();
        let mut r: usize = 0;
        while r < altura
            invariant
                r <= altura,
                celulas.len() == r,
                forall|k: int| 0 <= k < r ==> #[trigger] celulas@[k].len() == largura,
                forall|k: int, c: int|
                    0 <= k < r && 0 <= c < largura ==> #[trigger] celulas@[k]@[c] == celula_vazia(),
            decreases altura - r,
        {
            let mut linha: Vec<Celula> = Vec::new();
            let mut c: usize = 0;
            while c < largura
                invariant
                    c <= largura,
                    linha.len() == c,
                    forall|k: int| 0 <= k < c ==> #[trigger] linha@[k] == celula_vazia(),
                decreases largura - c,
            {
                linha.push(Celula { ch: ' ', fg: None, bg: None });
                c = c + 1;
            }
            celulas.push(linha);
            r = r + 1;
        }
        Tela { largura, altura, celulas }
    }

    pub fn le(&self, r: usize, c: usize) -> (x: Celula)
        requires
            self.bem_formada(),
        ensures
            x == self.cel(r as int, c as int),
    {
        if r < self.altura && c < self.largura {
            assert(self.celulas@[r as int].len() == self.largura);
            self.celulas[r][c]
        } else {
            Celula { ch: ' ', fg: None, bg: None }
        }
    }

    /// Troca a celula, se ela estiver dentro da grade.
    pub fn define(&mut self, r: usize, c: usize, x: Celula)
        requires
            old(self).bem_formada(),
        ensures
            final(self).bem_formada(),
            final(self).largura == old(self).largura,
            final(self).altura == old(self).altura,
            forall|a: int, b: int|
                #[trigger] final(self).cel(a, b) == (if a == r && b == c && r < old(self).altura && c
                    < old(self).largura {
                    x
                } else {
                    old(self).cel(a, b)
                }),
    {
        if r < self.altura && c < self.largura {
            let mut linha = self.celulas[r].clone();
            assert(linha@.len() == self.largura);
            linha.set(c, x);
            self.celulas.set(r, linha);
        }
    }
}

} // verus!

verus! {

/// Quantas colunas cada canto corta na linha mais proxima dele.
#[derive(Clone, Copy)]
pub struct Cortes {
    pub tl: usize,
    pub tr: usize,
    pub bl: usize,
    pub br: usize,
}

/// O efeito de um canto sobre a coluna `j` de uma linha: esvazia (antes do
/// bisel), poe o bisel, ou nada. `corte` so vale com o canto ativo na linha.
pub open spec fn efeito(ch: char, ativo: bool, corte: int, esquerda: bool, j: int, largura: int) -> (
    bool,
    Option<char>,
) {
    if !ativo || corte == 0 {
        (false, None)
    } else if esquerda {
        if j < corte {
            (true, None)
        } else if j == corte {
            (false, Some(ch))
        } else {
            (false, None)
        }
    } else {
        let lim = largura - 1 - corte;
        if j > lim {
            (true, None)
        } else if j == lim {
            (false, Some(ch))
        } else {
            (false, None)
        }
    }
}

/// Forma da celula (i, j) do bloco: vazia, bisel ou cheia. O chanfro anda
/// uma coluna por linha; linha com corte zero e linha cheia.
pub open spec fn forma(i: int, j: int, largura: int, altura: int, k: Cortes) -> (bool, Option<char>) {
    let db = altura - 1 - i;
    let e1 = efeito(CHANFRO_TL, i < k.tl, k.tl - 1 - i, true, j, largura);
    let e2 = efeito(CHANFRO_BL, db < k.bl, k.bl - 1 - db, true, j, largura);
    let e3 = efeito(CHANFRO_TR, i < k.tr, k.tr - 1 - i, false, j, largura);
    let e4 = efeito(CHANFRO_BR, db < k.br, k.br - 1 - db, false, j, largura);
    let diag = if e4.1 is Some {
        e4.1
    } else if e3.1 is Some {
        e3.1
    } else if e2.1 is Some {
        e2.1
    } else {
        e1.1
    };
    (e1.0 || e2.0 || e3.0 || e4.0, diag)
}

/// A celula depois de pintada com a forma: bisel na cor da frente, cheia no
/// fundo, vazia intacta.
pub open spec fn pinta(x: Celula, f: (bool, Option<char>), cor: Cor) -> Celula {
    match f.1 {
        Some(d) => Celula { ch: d, fg: Some(cor), bg: x.bg },
        None => if !f.0 {
            Celula { ch: ' ', fg: x.fg, bg: Some(cor) }
        } else {
            x
        },
    }
}

/// A area do bloco.
pub open spec fn no_bloco(r: int, c: int, r0: int, c0: int, largura: int, altura: int) -> bool {
    r0 <= r < r0 + altura && c0 <= c < c0 + largura
}

/// A tela vista como funcao de celulas.
pub open spec fn cels(t: Tela) -> spec_fn(int, int) -> Celula {
    |r: int, c: int| t.cel(r, c)
}

/// O bloco sem texto, sobre a tela de celulas `g`, de `ta` linhas e `tl`
/// colunas.
pub open spec fn fundo_bloco(
    g: spec_fn(int, int) -> Celula,
    ta: int,
    tl: int,
    r: int,
    c: int,
    r0: int,
    c0: int,
    largura: int,
    altura: int,
    cor: Cor,
    k: Cortes,
) -> Celula {
    if no_bloco(r, c, r0, c0, largura, altura) && 0 <= r < ta && 0 <= c < tl {
        pinta(g(r, c), forma(r - r0, c - c0, largura, altura, k), cor)
    } else {
        g(r, c)
    }
}

/// `largura - 1 - corte` so e calculado com um canto direito ativo; o bloco
/// exige que ele nao fique negativo.
pub open spec fn cortes_cabem(largura: int, altura: int, k: Cortes) -> bool {
    altura == 0 || largura == 0 || (k.tr <= largura && k.br <= largura)
}

fn efeito_de(ch: char, ativo: bool, corte: usize, esquerda: bool, j: usize, largura: usize) -> (r: (bool, Option<char>))
    requires
        ativo && corte != 0 && !esquerda ==> corte < largura,
    ensures
        r == efeito(ch, ativo, corte as int, esquerda, j as int, largura as int),
{
    if !ativo || corte == 0 {
        (false, None)
    } else if esquerda {
        if j < corte {
            (true, None)
        } else if j == corte {
            (false, Some(ch))
        } else {
            (false, None)
        }
    } else {
        let lim = largura - 1 - corte;
        if j > lim {
            (true, None)
        } else if j == lim {
            (false, Some(ch))
        } else {
            (false, None)
        }
    }
}

fn forma_de(i: usize, j: usize, largura: usize, altura: usize, k: Cortes) -> (r: (bool, Option<char>))
    requires
        i < altura,
        j < largura,
        cortes_cabem(largura as int, altura as int, k),
    ensures
        r == forma(i as int, j as int, largura as int, altura as int, k),
{
    let db = altura - 1 - i;
    let e1 = efeito_de(CHANFRO_TL, i < k.tl, k.tl.saturating_sub(1 + i), true, j, largura);
    let e2 = efeito_de(CHANFRO_BL, db < k.bl, k.bl.saturating_sub(1 + db), true, j, largura);
    let e3 = efeito_de(CHANFRO_TR, i < k.tr, k.tr.saturating_sub(1 + i), false, j, largura);
    let e4 = efeito_de(CHANFRO_BR, db < k.br, k.br.saturating_sub(1 + db), false, j, largura);
    let diag = if e4.1.is_some() {
        e4.1
    } else if e3.1.is_some() {
        e3.1
    } else if e2.1.is_some() {
        e2.1
    } else {
        e1.1
    };
    (e1.0 || e2.0 || e3.0 || e4.0, diag)
}

fn pinta_de(x: Celula, f: (bool, Option<char>), cor: Cor) -> (r: Celula)
    ensures
        r == pinta(x, f, cor),
{
    match f.1 {
        Some(d) => Celula { ch: d, fg: Some(cor), bg: x.bg },
        None => if !f.0 {
            Celula { ch: ' ', fg: x.fg, bg: Some(cor) }
        } else {
            x
        },
    }
}

/// Pinta o fundo do bloco na tela.
fn pinta_fundo(
    tela: &mut Tela,
    r0: usize,
    c0: usize,
    largura: usize,
    altura: usize,
    cor: Cor,
    k: Cortes,
)
    requires
        old(tela).bem_formada(),
        r0 + altura <= usize::MAX,
        c0 + largura <= usize::MAX,
        cortes_cabem(largura as int, altura as int, k),
    ensures
        final(tela).bem_formada(),
        final(tela).largura == old(tela).largura,
        final(tela).altura == old(tela).altura,
        forall|r: int, c: int|
            #[trigger] final(tela).cel(r, c) == fundo_bloco(
                cels(*old(tela)),
                old(tela).altura as int,
                old(tela).largura as int,
                r,
                c,
                r0 as int,
                c0 as int,
                largura as int,
                altura as int,
                cor,
                k,
            ),
{
    let ghost t0 = *tela;
    let mut i: usize = 0;
    while i < altura
        invariant
            i <= altura,
            tela.bem_formada(),
            tela.largura == t0.largura,
            tela.altura == t0.altura,
            t0.bem_formada(),
            r0 + altura <= usize::MAX,
            c0 + largura <= usize::MAX,
            cortes_cabem(largura as int, altura as int, k),
            forall|r: int, c: int|
                #[trigger] tela.cel(r, c) == (if r < r0 + i {
                    fundo_bloco(cels(t0), t0.altura as int, t0.largura as int, r, c, r0 as int, c0 as int, largura as int, altura as int, cor, k)
                } else {
                    t0.cel(r, c)
                }),
        decreases altura - i,
    {
        let mut j: usize = 0;
        while j < largura
            invariant
                i < altura,
                j <= largura,
                tela.bem_formada(),
                tela.largura == t0.largura,
                tela.altura == t0.altura,
                t0.bem_formada(),
                r0 + altura <= usize::MAX,
                c0 + largura <= usize::MAX,
                cortes_cabem(largura as int, altura as int, k),
                forall|r: int, c: int|
                    #[trigger] tela.cel(r, c) == (if r < r0 + i || (r == r0 + i && c < c0 + j) {
                        fundo_bloco(cels(t0), t0.altura as int, t0.largura as int, r, c, r0 as int, c0 as int, largura as int, altura as int, cor, k)
                    } else {
                        t0.cel(r, c)
                    }),
            decreases largura - j,
        {
            let f = forma_de(i, j, largura, altura, k);
            let x = tela.le(r0 + i, c0 + j);
            let novo = pinta_de(x, f, cor);
            let ghost antes = *tela;
            tela.define(r0 + i, c0 + j, novo);
            proof {
                assert forall|r: int, c: int|
                    #[trigger] tela.cel(r, c) == (if r < r0 + i || (r == r0 + i && c < c0 + j + 1) {
                        fundo_bloco(cels(t0), t0.altura as int, t0.largura as int, r, c, r0 as int, c0 as int, largura as int, altura as int, cor, k)
                    } else {
                        t0.cel(r, c)
                    }) by {
                    if r == r0 + i && c == c0 + j {
                        assert(antes.cel(r, c) == t0.cel(r, c));
                    }
                }
            }
            j = j + 1;
        }
        proof {
            assert forall|r: int, c: int|
                #[trigger] tela.cel(r, c) == (if r < r0 + i + 1 {
                    fundo_bloco(cels(t0), t0.altura as int, t0.largura as int, r, c, r0 as int, c0 as int, largura as int, altura as int, cor, k)
                } else {
                    t0.cel(r, c)
                }) by {
                if r == r0 + i && c >= c0 + largura {
                    assert(!no_bloco(r, c, r0 as int, c0 as int, largura as int, altura as int));
                }
                if r == r0 + i && c < c0 {
                    assert(!no_bloco(r, c, r0 as int, c0 as int, largura as int, altura as int));
                }
            }
        }
        i = i + 1;
    }
    proof {
        assert forall|r: int, c: int|
            #[trigger] tela.cel(r, c) == fundo_bloco(
                cels(t0),
                t0.altura as int,
                t0.largura as int,
                r,
                c,
                r0 as int,
                c0 as int,
                largura as int,
                altura as int,
                cor,
                k,
            ) by {
            if r >= r0 + altura {
                assert(!no_bloco(r, c, r0 as int, c0 as int, largura as int, altura as int));
            }
        }
    }
}

} // verus!

verus! {

/// A celula `(r, c)` tem fundo da cor.
pub open spec fn cheia(g: spec_fn(int, int) -> Celula, r: int, c: int, cor: Cor) -> bool {
    g(r, c).bg == Some(cor)
}

/// Primeira coluna `j' >= j`, dentro do bloco, com fundo da cor; ou `largura`.
pub open spec fn primeira_cheia(
    g: spec_fn(int, int) -> Celula,
    linha: int,
    c0: int,
    largura: int,
    cor: Cor,
    j: int,
) -> int
    decreases largura - j,
{
    if j < 0 || j >= largura {
        largura
    } else if cheia(g, linha, c0 + j, cor) {
        j
    } else {
        primeira_cheia(g, linha, c0, largura, cor, j + 1)
    }
}

/// Ultima coluna `j' < j` do bloco com fundo da cor; ou -1.
pub open spec fn ultima_cheia(g: spec_fn(int, int) -> Celula, linha: int, c0: int, cor: Cor, j: int) -> int
    decreases j,
{
    if j <= 0 {
        -1
    } else if cheia(g, linha, c0 + j - 1, cor) {
        j - 1
    } else {
        ultima_cheia(g, linha, c0, cor, j - 1)
    }
}

/// O trecho preenchido de uma linha do bloco: (inicio, largura), ou (0, 0).
pub open spec fn vao(g: spec_fn(int, int) -> Celula, linha: int, c0: int, largura: int, cor: Cor) -> (
    int,
    int,
) {
    let a = primeira_cheia(g, linha, c0, largura, cor, 0);
    if a >= largura {
        (0, 0)
    } else {
        (a, ultima_cheia(g, linha, c0, cor, largura) - a + 1)
    }
}

/// O menor vao entre as `n` linhas a partir de `linha`.
pub open spec fn menor_vao(
    g: spec_fn(int, int) -> Celula,
    linha: int,
    c0: int,
    largura: int,
    cor: Cor,
    n: int,
) -> int
    decreases n,
{
    if n <= 1 {
        vao(g, linha, c0, largura, cor).1
    } else {
        let a = menor_vao(g, linha, c0, largura, cor, n - 1);
        let b = vao(g, linha + n - 1, c0, largura, cor).1;
        if a <= b {
            a
        } else {
            b
        }
    }
}

pub open spec fn dist(a: int, b: int) -> int {
    if a >= b {
        a - b
    } else {
        b - a
    }
}

/// O deslocamento `o` e pelo menos tao bom quanto `b`: vao menor maior, ou
/// igual e mais perto do meio.
pub open spec fn ganha(
    g: spec_fn(int, int) -> Celula,
    r0: int,
    c0: int,
    largura: int,
    cor: Cor,
    n: int,
    meio: int,
    o: int,
    b: int,
) -> bool {
    let vo = menor_vao(g, r0 + o, c0, largura, cor, n);
    let vb = menor_vao(g, r0 + b, c0, largura, cor, n);
    vo > vb || (vo == vb && dist(o, meio) <= dist(b, meio))
}

/// O melhor deslocamento entre 0 e `m`; em empate, o ultimo.
pub open spec fn melhor_ate(
    g: spec_fn(int, int) -> Celula,
    r0: int,
    c0: int,
    largura: int,
    cor: Cor,
    n: int,
    meio: int,
    m: int,
) -> int
    decreases m,
{
    if m <= 0 {
        0
    } else {
        let b = melhor_ate(g, r0, c0, largura, cor, n, meio, m - 1);
        if ganha(g, r0, c0, largura, cor, n, meio, m, b) {
            m
        } else {
            b
        }
    }
}

/// A linha do bloco onde o texto comeca: onde o bloco e mais largo para todas
/// as linhas do texto, e, no empate, mais perto do meio.
pub open spec fn topo(
    g: spec_fn(int, int) -> Celula,
    r0: int,
    c0: int,
    largura: int,
    altura: int,
    cor: Cor,
    n: int,
) -> int {
    melhor_ate(g, r0, c0, largura, cor, n, (altura - n) / 2, altura - n)
}

/// A celula com o texto: cada linha centralizada no trecho preenchido dela,
/// em preto, cortada no tamanho do trecho.
pub open spec fn texto_cel(
    g: spec_fn(int, int) -> Celula,
    ta: int,
    tl: int,
    r: int,
    c: int,
    r0: int,
    c0: int,
    largura: int,
    altura: int,
    linhas: Seq<Seq<char>>,
    cor: Cor,
) -> Celula {
    let x = g(r, c);
    let n = linhas.len() as int;
    if n == 0 || altura < n {
        x
    } else {
        let i = r - r0 - topo(g, r0, c0, largura, altura, cor, n);
        if 0 <= i < n && 0 <= r < ta && 0 <= c < tl {
            let v = vao(g, r, c0, largura, cor);
            let len = if v.1 <= linhas[i].len() {
                v.1
            } else {
                linhas[i].len() as int
            };
            let ini = c0 + v.0 + (v.1 - len) / 2;
            if v.1 > 0 && ini <= c < ini + len {
                Celula { ch: linhas[i][c - ini], fg: Some(Cor::Preto), bg: x.bg }
            } else {
                x
            }
        } else {
            x
        }
    }
}

} // verus!

verus! {

/// A tela como funcao de celulas, com o fundo do bloco ja pintado.
pub open spec fn fundo_de(
    g0: spec_fn(int, int) -> Celula,
    ta: int,
    tl: int,
    r0: int,
    c0: int,
    largura: int,
    altura: int,
    cor: Cor,
    k: Cortes,
) -> spec_fn(int, int) -> Celula {
    |r: int, c: int| fundo_bloco(g0, ta, tl, r, c, r0, c0, largura, altura, cor, k)
}

proof fn lema_primeira(g: spec_fn(int, int) -> Celula, linha: int, c0: int, largura: int, cor: Cor, j: int)
    requires
        0 <= j <= largura,
    ensures
        j <= primeira_cheia(g, linha, c0, largura, cor, j) <= largura,
        primeira_cheia(g, linha, c0, largura, cor, j) < largura ==> cheia(
            g,
            linha,
            c0 + primeira_cheia(g, linha, c0, largura, cor, j),
            cor,
        ),
    decreases largura - j,
{
    if j < largura && !cheia(g, linha, c0 + j, cor) {
        lema_primeira(g, linha, c0, largura, cor, j + 1);
    }
}

proof fn lema_ultima(g: spec_fn(int, int) -> Celula, linha: int, c0: int, cor: Cor, j: int, a: int)
    requires
        0 <= a < j,
        cheia(g, linha, c0 + a, cor),
    ensures
        a <= ultima_cheia(g, linha, c0, cor, j) < j,
    decreases j,
{
    if !cheia(g, linha, c0 + j - 1, cor) {
        lema_ultima(g, linha, c0, cor, j - 1, a);
    }
}

fn cheia_em(tela: &Tela, r: usize, c: usize, cor: Cor) -> (b: bool)
    requires
        tela.bem_formada(),
    ensures
        b == (tela.cel(r as int, c as int).bg == Some(cor)),
{
    match tela.le(r, c).bg {
        Some(x) => x == cor,
        None => false,
    }
}

fn vao_em(
    tela: &Tela,
    Ghost(g): Ghost<spec_fn(int, int) -> Celula>,
    linha: usize,
    c0: usize,
    largura: usize,
    cor: Cor,
) -> (v: (usize, usize))
    requires
        tela.bem_formada(),
        c0 + largura <= usize::MAX,
        forall|c: int| #[trigger] tela.cel(linha as int, c) == g(linha as int, c),
    ensures
        (v.0 as int, v.1 as int) == vao(g, linha as int, c0 as int, largura as int, cor),
        v.0 + v.1 <= largura,
{
    let mut a: usize = 0;
    proof {
        lema_primeira(g, linha as int, c0 as int, largura as int, cor, 0);
    }
    while a < largura && !cheia_em(tela, linha, c0 + a, cor)
        invariant
            a <= largura,
            tela.bem_formada(),
            c0 + largura <= usize::MAX,
            forall|c: int| #[trigger] tela.cel(linha as int, c) == g(linha as int, c),
            primeira_cheia(g, linha as int, c0 as int, largura as int, cor, a as int) == primeira_cheia(
                g,
                linha as int,
                c0 as int,
                largura as int,
                cor,
                0,
            ),
        decreases largura - a,
    {
        assert(tela.cel(linha as int, c0 + a) == g(linha as int, c0 + a));
        a = a + 1;
    }
    if a >= largura {
        return (0, 0);
    }
    assert(tela.cel(linha as int, c0 + a) == g(linha as int, c0 + a));
    let mut b: usize = largura;
    proof {
        lema_ultima(g, linha as int, c0 as int, cor, largura as int, a as int);
    }
    while b > a + 1 && !cheia_em(tela, linha, c0 + b - 1, cor)
        invariant
            a < b <= largura,
            tela.bem_formada(),
            c0 + largura <= usize::MAX,
            cheia(g, linha as int, c0 + a, cor),
            forall|c: int| #[trigger] tela.cel(linha as int, c) == g(linha as int, c),
            ultima_cheia(g, linha as int, c0 as int, cor, b as int) == ultima_cheia(
                g,
                linha as int,
                c0 as int,
                cor,
                largura as int,
            ),
        decreases b,
    {
        assert(tela.cel(linha as int, c0 + b - 1) == g(linha as int, c0 + b - 1));
        b = b - 1;
    }
    assert(tela.cel(linha as int, c0 + b - 1) == g(linha as int, c0 + b - 1));
    (a, b - a)
}

fn menor_vao_em(
    tela: &Tela,
    Ghost(g): Ghost<spec_fn(int, int) -> Celula>,
    linha: usize,
    n: usize,
    c0: usize,
    largura: usize,
    cor: Cor,
) -> (m: usize)
    requires
        tela.bem_formada(),
        n >= 1,
        linha + n <= usize::MAX,
        c0 + largura <= usize::MAX,
        forall|r: int, c: int| #[trigger] tela.cel(r, c) == g(r, c),
    ensures
        m == menor_vao(g, linha as int, c0 as int, largura as int, cor, n as int),
        m <= largura,
{
    let mut m = vao_em(tela, Ghost(g), linha, c0, largura, cor).1;
    let mut k: usize = 1;
    while k < n
        invariant
            1 <= k <= n,
            tela.bem_formada(),
            linha + n <= usize::MAX,
            c0 + largura <= usize::MAX,
            forall|r: int, c: int| #[trigger] tela.cel(r, c) == g(r, c),
            m == menor_vao(g, linha as int, c0 as int, largura as int, cor, k as int),
            m <= largura,
        decreases n - k,
    {
        let v = vao_em(tela, Ghost(g), linha + k, c0, largura, cor).1;
        if v < m {
            m = v;
        }
        k = k + 1;
    }
    m
}

fn dist_de(a: usize, b: usize) -> (d: usize)
    ensures
        d == dist(a as int, b as int),
{
    if a >= b {
        a - b
    } else {
        b - a
    }
}

fn topo_em(
    tela: &Tela,
    Ghost(g): Ghost<spec_fn(int, int) -> Celula>,
    r0: usize,
    c0: usize,
    largura: usize,
    altura: usize,
    cor: Cor,
    n: usize,
) -> (t: usize)
    requires
        tela.bem_formada(),
        1 <= n <= altura,
        r0 + altura <= usize::MAX,
        c0 + largura <= usize::MAX,
        forall|r: int, c: int| #[trigger] tela.cel(r, c) == g(r, c),
    ensures
        t == topo(g, r0 as int, c0 as int, largura as int, altura as int, cor, n as int),
        t + n <= altura,
{
    let m = altura - n;
    let meio = m / 2;
    let mut melhor: usize = 0;
    let mut v_melhor = menor_vao_em(tela, Ghost(g), r0, n, c0, largura, cor);
    let mut o: usize = 1;
    while o <= m
        invariant
            1 <= o <= m + 1,
            m == altura - n,
            meio == m / 2,
            1 <= n <= altura,
            tela.bem_formada(),
            r0 + altura <= usize::MAX,
            c0 + largura <= usize::MAX,
            forall|r: int, c: int| #[trigger] tela.cel(r, c) == g(r, c),
            melhor as int == melhor_ate(g, r0 as int, c0 as int, largura as int, cor, n as int, meio as int, o - 1),
            melhor <= m,
            v_melhor == menor_vao(g, r0 + melhor, c0 as int, largura as int, cor, n as int),
        decreases m + 1 - o,
    {
        let v = menor_vao_em(tela, Ghost(g), r0 + o, n, c0, largura, cor);
        if v > v_melhor || (v == v_melhor && dist_de(o, meio) <= dist_de(melhor, meio)) {
            melhor = o;
            v_melhor = v;
        }
        o = o + 1;
    }
    melhor
}

/// Escreve uma linha de texto centralizada no trecho preenchido da linha
/// `linha` da tela.
fn escreve_linha(
    tela: &mut Tela,
    Ghost(g): Ghost<spec_fn(int, int) -> Celula>,
    linha: usize,
    texto: &Vec<char>,
    c0: usize,
    largura: usize,
    cor: Cor,
)
    requires
        old(tela).bem_formada(),
        c0 + largura <= usize::MAX,
        forall|c: int| #[trigger] old(tela).cel(linha as int, c) == g(linha as int, c),
    ensures
        final(tela).bem_formada(),
        final(tela).largura == old(tela).largura,
        final(tela).altura == old(tela).altura,
        forall|r: int, c: int|
            r != linha ==> #[trigger] final(tela).cel(r, c) == old(tela).cel(r, c),
        forall|c: int|
            #[trigger] final(tela).cel(linha as int, c) == ({
                let x = g(linha as int, c);
                let v = vao(g, linha as int, c0 as int, largura as int, cor);
                let len = if v.1 <= texto@.len() {
                    v.1
                } else {
                    texto@.len() as int
                };
                let ini = c0 + v.0 + (v.1 - len) / 2;
                if v.1 > 0 && ini <= c < ini + len && linha < old(tela).altura && 0 <= c
                    < old(tela).largura {
                    Celula { ch: texto@[c - ini], fg: Some(Cor::Preto), bg: x.bg }
                } else {
                    x
                }
            }),
{
    let (esq, v) = vao_em(tela, Ghost(g), linha, c0, largura, cor);
    let ghost t0 = *tela;
    if v == 0 {
        return;
    }
    let len = if v <= texto.len() {
        v
    } else {
        texto.len()
    };
    let ini = c0 + esq + (v - len) / 2;
    let mut k: usize = 0;
    while k < len
        invariant
            k <= len <= v,
            len <= texto.len(),
            esq + v <= largura,
            c0 + largura <= usize::MAX,
            ini == c0 + esq + (v - len) / 2,
            ini + len <= c0 + largura,
            tela.bem_formada(),
            tela.largura == t0.largura,
            tela.altura == t0.altura,
            forall|r: int, c: int| #[trigger] tela.cel(r, c) == (if r == linha && ini <= c < ini + k && r
                < t0.altura && 0 <= c < t0.largura {
                Celula { ch: texto@[c - ini], fg: Some(Cor::Preto), bg: t0.cel(r, c).bg }
            } else {
                t0.cel(r, c)
            }),
        decreases len - k,
    {
        let x = tela.le(linha, ini + k);
        tela.define(linha, ini + k, Celula { ch: texto[k], fg: Some(Cor::Preto), bg: x.bg });
        k = k + 1;
    }
}

} // verus!

verus! {

/// Bloco preenchido com o texto vazado, cantos chanfrados.
///
/// O chanfro anda uma coluna por linha. O texto vai na altura em que o bloco
/// e mais largo e centraliza no trecho que cada linha tem preenchido, nao no
/// retangulo nominal: sem isso a frase encosta no bisel nas linhas
/// chanfradas. Texto com mais linhas que o bloco nao entra.
pub fn bloco(
    tela: &mut Tela,
    r0: usize,
    c0: usize,
    largura: usize,
    altura: usize,
    linhas: &Vec<String>,
    cor: Cor,
    cortes: Cortes,
)
    requires
        old(tela).bem_formada(),
        r0 + altura <= usize::MAX,
        c0 + largura <= usize::MAX,
        cortes_cabem(largura as int, altura as int, cortes),
    ensures
        final(tela).bem_formada(),
        final(tela).largura == old(tela).largura,
        final(tela).altura == old(tela).altura,
        forall|r: int, c: int|
            #[trigger] final(tela).cel(r, c) == texto_cel(
                fundo_de(
                    cels(*old(tela)),
                    old(tela).altura as int,
                    old(tela).largura as int,
                    r0 as int,
                    c0 as int,
                    largura as int,
                    altura as int,
                    cor,
                    cortes,
                ),
                old(tela).altura as int,
                old(tela).largura as int,
                r,
                c,
                r0 as int,
                c0 as int,
                largura as int,
                altura as int,
                crate::texto::vistas(linhas@),
                cor,
            ),
        cels(*final(tela)) == bloco_g(
            cels(*old(tela)),
            old(tela).altura as int,
            old(tela).largura as int,
            r0 as int,
            c0 as int,
            largura as int,
            altura as int,
            crate::texto::vistas(linhas@),
            cor,
            cortes,
        ),
{
    let ghost t0 = *tela;
    let ghost g = fundo_de(
        cels(t0),
        t0.altura as int,
        t0.largura as int,
        r0 as int,
        c0 as int,
        largura as int,
        altura as int,
        cor,
        cortes,
    );
    let ghost ls = crate::texto::vistas(linhas@);
    pinta_fundo(tela, r0, c0, largura, altura, cor, cortes);
    assert forall|r: int, c: int| #[trigger] tela.cel(r, c) == g(r, c) by {}
    if linhas.len() == 0 || altura < linhas.len() {
        assert(cels(*tela) =~= bloco_g(
            cels(t0),
            t0.altura as int,
            t0.largura as int,
            r0 as int,
            c0 as int,
            largura as int,
            altura as int,
            ls,
            cor,
            cortes,
        ));
        return;
    }
    let n = linhas.len();
    let tp = topo_em(tela, Ghost(g), r0, c0, largura, altura, cor, n);
    let ghost t1 = *tela;
    let mut i: usize = 0;
    while i < n
        invariant
            i <= n == linhas.len() == ls.len(),
            1 <= n <= altura,
            ls == crate::texto::vistas(linhas@),
            tp + n <= altura,
            tp == topo(g, r0 as int, c0 as int, largura as int, altura as int, cor, n as int),
            r0 + altura <= usize::MAX,
            c0 + largura <= usize::MAX,
            tela.bem_formada(),
            tela.largura == t0.largura,
            tela.altura == t0.altura,
            forall|r: int, c: int|
                #[trigger] tela.cel(r, c) == (if r0 + tp <= r < r0 + tp + i {
                    texto_cel(
                        g,
                        t0.altura as int,
                        t0.largura as int,
                        r,
                        c,
                        r0 as int,
                        c0 as int,
                        largura as int,
                        altura as int,
                        ls,
                        cor,
                    )
                } else {
                    g(r, c)
                }),
        decreases n - i,
    {
        let txt = crate::texto::chars_de(linhas[i].as_str());
        let linha = r0 + tp + i;
        let ghost antes = *tela;
        escreve_linha(tela, Ghost(g), linha, &txt, c0, largura, cor);
        proof {
            assert forall|r: int, c: int|
                #[trigger] tela.cel(r, c) == (if r0 + tp <= r < r0 + tp + i + 1 {
                    texto_cel(
                        g,
                        t0.altura as int,
                        t0.largura as int,
                        r,
                        c,
                        r0 as int,
                        c0 as int,
                        largura as int,
                        altura as int,
                        ls,
                        cor,
                    )
                } else {
                    g(r, c)
                }) by {
                if r == linha {
                    assert(ls[i as int] == txt@);
                    assert(antes.cel(r, c) == g(r, c));
                }
            }
        }
        i = i + 1;
    }
    proof {
        assert forall|r: int, c: int|
            #[trigger] tela.cel(r, c) == texto_cel(
                g,
                t0.altura as int,
                t0.largura as int,
                r,
                c,
                r0 as int,
                c0 as int,
                largura as int,
                altura as int,
                ls,
                cor,
            ) by {}
        assert(cels(*tela) =~= bloco_g(
            cels(t0),
            t0.altura as int,
            t0.largura as int,
            r0 as int,
            c0 as int,
            largura as int,
            altura as int,
            ls,
            cor,
            cortes,
        ));
    }
}

} // verus!

verus! {

/// O bloco inteiro, fundo e texto, sobre as celulas `g0`.
pub open spec fn bloco_g(
    g0: spec_fn(int, int) -> Celula,
    ta: int,
    tl: int,
    r0: int,
    c0: int,
    largura: int,
    altura: int,
    linhas: Seq<Seq<char>>,
    cor: Cor,
    k: Cortes,
) -> spec_fn(int, int) -> Celula {
    |r: int, c: int|
        texto_cel(
            fundo_de(g0, ta, tl, r0, c0, largura, altura, cor, k),
            ta,
            tl,
            r,
            c,
            r0,
            c0,
            largura,
            altura,
            linhas,
            cor,
        )
}

/// Uma barra de ligacao: `comp` celulas de fundo da cor a partir de `(r, c)`.
pub open spec fn liga_g(
    g: spec_fn(int, int) -> Celula,
    ta: int,
    tl: int,
    r: int,
    c: int,
    comp: int,
    cor: Cor,
) -> spec_fn(int, int) -> Celula {
    |a: int, b: int|
        if a == r && c <= b < c + comp && 0 <= a < ta && 0 <= b < tl {
            Celula { ch: ' ', fg: g(a, b).fg, bg: Some(cor) }
        } else {
            g(a, b)
        }
}

/// Um texto solto, que limpa o fundo por onde passa: sem isso ele cairia
/// por cima de uma ligacao e sairia laranja sobre laranja.
pub open spec fn rotulo_g(
    g: spec_fn(int, int) -> Celula,
    ta: int,
    tl: int,
    r: int,
    c: int,
    texto: Seq<char>,
    cor: Cor,
) -> spec_fn(int, int) -> Celula {
    |a: int, b: int|
        if a == r && c <= b < c + texto.len() && 0 <= a < ta && 0 <= b < tl {
            Celula { ch: texto[b - c], fg: Some(cor), bg: None }
        } else {
            g(a, b)
        }
}

pub fn liga(tela: &mut Tela, r: usize, c: usize, comp: usize, cor: Cor)
    requires
        old(tela).bem_formada(),
        c + comp <= usize::MAX,
    ensures
        final(tela).bem_formada(),
        final(tela).largura == old(tela).largura,
        final(tela).altura == old(tela).altura,
        cels(*final(tela)) == liga_g(
            cels(*old(tela)),
            old(tela).altura as int,
            old(tela).largura as int,
            r as int,
            c as int,
            comp as int,
            cor,
        ),
{
    let ghost t0 = *tela;
    let mut i: usize = 0;
    while i < comp
        invariant
            i <= comp,
            c + comp <= usize::MAX,
            tela.bem_formada(),
            tela.largura == t0.largura,
            tela.altura == t0.altura,
            forall|a: int, b: int|
                #[trigger] tela.cel(a, b) == liga_g(
                    cels(t0),
                    t0.altura as int,
                    t0.largura as int,
                    r as int,
                    c as int,
                    i as int,
                    cor,
                )(a, b),
        decreases comp - i,
    {
        let x = tela.le(r, c + i);
        tela.define(r, c + i, Celula { ch: ' ', fg: x.fg, bg: Some(cor) });
        i = i + 1;
    }
    assert(cels(*tela) =~= liga_g(
        cels(t0),
        t0.altura as int,
        t0.largura as int,
        r as int,
        c as int,
        comp as int,
        cor,
    ));
}

pub fn rotulo(tela: &mut Tela, r: usize, c: usize, texto: &str, cor: Cor)
    requires
        old(tela).bem_formada(),
        c + texto@.len() <= usize::MAX,
    ensures
        final(tela).bem_formada(),
        final(tela).largura == old(tela).largura,
        final(tela).altura == old(tela).altura,
        cels(*final(tela)) == rotulo_g(
            cels(*old(tela)),
            old(tela).altura as int,
            old(tela).largura as int,
            r as int,
            c as int,
            texto@,
            cor,
        ),
{
    let ghost t0 = *tela;
    let v = crate::texto::chars_de(texto);
    let mut i: usize = 0;
    while i < v.len()
        invariant
            i <= v.len(),
            v@ == texto@,
            c + v.len() <= usize::MAX,
            tela.bem_formada(),
            tela.largura == t0.largura,
            tela.altura == t0.altura,
            forall|a: int, b: int|
                #[trigger] tela.cel(a, b) == rotulo_g(
                    cels(t0),
                    t0.altura as int,
                    t0.largura as int,
                    r as int,
                    c as int,
                    v@.take(i as int),
                    cor,
                )(a, b),
        decreases v.len() - i,
    {
        tela.define(r, c + i, Celula { ch: v[i], fg: Some(cor), bg: None });
        i = i + 1;
        assert forall|a: int, b: int|
            #[trigger] tela.cel(a, b) == rotulo_g(
                cels(t0),
                t0.altura as int,
                t0.largura as int,
                r as int,
                c as int,
                v@.take(i as int),
                cor,
            )(a, b) by {
            if a == r && b < c + i - 1 && c <= b {
                assert(v@.take(i as int)[b - c] == v@.take(i - 1)[b - c]);
            }
        }
    }
    assert(v@.take(v.len() as int) =~= v@);
    assert(cels(*tela) =~= rotulo_g(
        cels(t0),
        t0.altura as int,
        t0.largura as int,
        r as int,
        c as int,
        texto@,
        cor,
    ));
}

} // verus!

verus! {

/// A ficha e a cor da unidade com esse nome; sem ela, o nome e dois
/// tracos, apagado.
pub open spec fn peca_spec(us: Seq<(String, Vec<String>, Cor)>, nome: Seq<char>) -> (
    Seq<Seq<char>>,
    Cor,
)
    decreases us.len(),
{
    if us.len() == 0 {
        (seq![nome, "-"@, "-"@], Cor::Fosco)
    } else if us[0].0@ == nome {
        (crate::texto::vistas(us[0].1@), us[0].2)
    } else {
        peca_spec(us.drop_first(), nome)
    }
}

/// Uma unidade da lista e desenhada com a sua propria ficha e a sua cor: as
/// da primeira entrada com o nome. So a que falta na lista vira o nome com
/// dois tracos, apagado.
pub proof fn lei_peca_da_unidade(us: Seq<(String, Vec<String>, Cor)>, nome: Seq<char>, k: int)
    requires
        0 <= k <= us.len(),
        forall|i: int| 0 <= i < k ==> (#[trigger] us[i]).0@ != nome,
        k < us.len() ==> us[k].0@ == nome,
    ensures
        k < us.len() ==> peca_spec(us, nome) == (crate::texto::vistas(us[k].1@), us[k].2),
        k == us.len() ==> peca_spec(us, nome) == (seq![nome, "-"@, "-"@], Cor::Fosco),
    decreases k,
{
    if k > 0 {
        let d = us.drop_first();
        assert forall|i: int| 0 <= i < k - 1 implies (#[trigger] d[i]).0@ != nome by {
            assert(d[i] == us[i + 1]);
        }
        assert(us[0].0@ != nome);
        lei_peca_da_unidade(d, nome, k - 1);
        if k < us.len() {
            assert(d[k - 1] == us[k]);
        }
    }
}

/// O diagrama: BALTHASAR em cima, CASPER e MELCHIOR embaixo, as barras de
/// ligacao e MAGI no meio.
pub open spec fn painel_spec(us: Seq<(String, Vec<String>, Cor)>) -> spec_fn(int, int) -> Celula {
    let g0 = |r: int, c: int| celula_vazia();
    let p1 = peca_spec(us, "BALTHASAR"@);
    let g1 = bloco_g(g0, 16, 64, 0, 17, 30, 6, p1.0, p1.1, Cortes { tl: 0, tr: 0, bl: 4, br: 4 });
    let p2 = peca_spec(us, "CASPER"@);
    let g2 = bloco_g(g1, 16, 64, 9, 0, 30, 7, p2.0, p2.1, Cortes { tl: 0, tr: 5, bl: 0, br: 0 });
    let p3 = peca_spec(us, "MELCHIOR"@);
    let g3 = bloco_g(g2, 16, 64, 9, 34, 30, 7, p3.0, p3.1, Cortes { tl: 5, tr: 0, bl: 0, br: 0 });
    let g4 = liga_g(g3, 16, 64, 6, 29, 6, Cor::Laranja);
    let g5 = liga_g(g4, 16, 64, 8, 24, 4, Cor::Laranja);
    let g6 = liga_g(g5, 16, 64, 8, 36, 4, Cor::Laranja);
    rotulo_g(g6, 16, 64, 7, 28, "M A G I"@, Cor::LaranjaForte)
}

fn peca(us: &Vec<(String, Vec<String>, Cor)>, nome: &str) -> (r: (Vec<String>, Cor))
    ensures
        (crate::texto::vistas(r.0@), r.1) == peca_spec(us@, nome@),
{
    let mut i: usize = 0;
    assert(us@.skip(0) =~= us@);
    while i < us.len()
        invariant
            i <= us.len(),
            peca_spec(us@.skip(i as int), nome@) == peca_spec(us@, nome@),
        decreases us.len() - i,
    {
        assert(us@.skip(i as int)[0] == us@[i as int]);
        assert(us@.skip(i as int).drop_first() =~= us@.skip(i + 1));
        if crate::texto::str_igual(us[i].0.as_str(), nome) {
            return (us[i].1.clone(), us[i].2);
        }
        i = i + 1;
    }
    let mut v: Vec<String> = Vec::new();
    v.push(nome.to_owned());
    v.push("-".to_owned());
    v.push("-".to_owned());
    assert(us@.skip(us.len() as int) =~= Seq::<(String, Vec<String>, Cor)>::empty());
    assert(crate::texto::vistas(v@) =~= seq![nome@, "-"@, "-"@]);
    (v, Cor::Fosco)
}

/// As tres unidades em triangulo em volta do centro. Cada item e (nome,
/// linhas da ficha, cor do estado).
pub fn painel_unidades(us: &Vec<(String, Vec<String>, Cor)>) -> (t: Tela)
    ensures
        t.bem_formada(),
        t.largura == 64,
        t.altura == 16,
        cels(t) == painel_spec(us@),
{
    let mut tela = Tela::nova(64, 16);
    let ghost g0 = |r: int, c: int| celula_vazia();
    assert(cels(tela) =~= g0);
    let (l1, c1) = peca(us, "BALTHASAR");
    bloco(&mut tela, 0, 17, 30, 6, &l1, c1, Cortes { tl: 0, tr: 0, bl: 4, br: 4 });
    let (l2, c2) = peca(us, "CASPER");
    bloco(&mut tela, 9, 0, 30, 7, &l2, c2, Cortes { tl: 0, tr: 5, bl: 0, br: 0 });
    let (l3, c3) = peca(us, "MELCHIOR");
    bloco(&mut tela, 9, 34, 30, 7, &l3, c3, Cortes { tl: 5, tr: 0, bl: 0, br: 0 });
    liga(&mut tela, 6, 29, 6, Cor::Laranja);
    liga(&mut tela, 8, 24, 4, Cor::Laranja);
    liga(&mut tela, 8, 36, 4, Cor::Laranja);
    proof {
        reveal_strlit("M A G I");
    }
    rotulo(&mut tela, 7, 28, "M A G I", Cor::LaranjaForte);
    tela
}

} // verus!

verus! {

proof fn lema_melhor_ate(
    g: spec_fn(int, int) -> Celula,
    r0: int,
    c0: int,
    largura: int,
    cor: Cor,
    n: int,
    meio: int,
    m: int,
)
    requires
        m >= 0,
    ensures
        0 <= melhor_ate(g, r0, c0, largura, cor, n, meio, m) <= m,
    decreases m,
{
    if m > 0 {
        lema_melhor_ate(g, r0, c0, largura, cor, n, meio, m - 1);
    }
}

proof fn lema_vao(g: spec_fn(int, int) -> Celula, linha: int, c0: int, largura: int, cor: Cor)
    requires
        largura >= 0,
    ensures
        0 <= vao(g, linha, c0, largura, cor).0,
        0 <= vao(g, linha, c0, largura, cor).1,
        vao(g, linha, c0, largura, cor).0 + vao(g, linha, c0, largura, cor).1 <= largura,
{
    lema_primeira(g, linha, c0, largura, cor, 0);
    let a = primeira_cheia(g, linha, c0, largura, cor, 0);
    if a < largura {
        lema_ultima(g, linha, c0, cor, largura, a);
    }
}

/// Um bloco so mexe nas celulas do seu retangulo: fora dele a tela fica como
/// estava, seja qual for o texto, a cor ou os cortes.
pub proof fn lei_bloco_so_no_retangulo(
    g0: spec_fn(int, int) -> Celula,
    ta: int,
    tl: int,
    r0: int,
    c0: int,
    largura: int,
    altura: int,
    linhas: Seq<Seq<char>>,
    cor: Cor,
    k: Cortes,
    r: int,
    c: int,
)
    requires
        largura >= 0,
        altura >= 0,
        !(r0 <= r < r0 + altura && c0 <= c < c0 + largura),
    ensures
        bloco_g(g0, ta, tl, r0, c0, largura, altura, linhas, cor, k)(r, c) == g0(r, c),
{
    let g = fundo_de(g0, ta, tl, r0, c0, largura, altura, cor, k);
    assert(g(r, c) == g0(r, c));
    let n = linhas.len() as int;
    if n > 0 && altura >= n {
        lema_melhor_ate(g, r0, c0, largura, cor, n, (altura - n) / 2, altura - n);
        lema_vao(g, r, c0, largura, cor);
    }
}

/// Sem cortes nos cantos, toda celula do retangulo de um bloco, dentro da
/// tela, fica com o fundo da cor do bloco, com texto ou sem.
pub proof fn lei_bloco_pinta_o_retangulo(
    g0: spec_fn(int, int) -> Celula,
    ta: int,
    tl: int,
    r0: int,
    c0: int,
    largura: int,
    altura: int,
    linhas: Seq<Seq<char>>,
    cor: Cor,
    k: Cortes,
    r: int,
    c: int,
)
    requires
        k.tl == 0 && k.tr == 0 && k.bl == 0 && k.br == 0,
        r0 <= r < r0 + altura,
        c0 <= c < c0 + largura,
        0 <= r < ta,
        0 <= c < tl,
    ensures
        bloco_g(g0, ta, tl, r0, c0, largura, altura, linhas, cor, k)(r, c).bg == Some(cor),
{
    let g = fundo_de(g0, ta, tl, r0, c0, largura, altura, cor, k);
    assert(forma(r - r0, c - c0, largura, altura, k) == (false, None::<char>));
    assert(g(r, c).bg == Some(cor));
}

} // verus!
