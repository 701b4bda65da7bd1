//! O simbolo do MAGI em braille, em duas camadas: a marca por cima, os arcos
//! concentricos por tras, onde a marca nao pinta.
use vstd::prelude::*;

verus! {

/// O que vai numa celula do logo.
#[derive(Clone, Copy, PartialEq, Eq, Structural, Debug)]
pub enum Traco {
    /// Um caractere da marca.
    Marca(char),
    /// Um caractere do arco de fundo.
    Arco(char),
    /// Nada: espaco.
    Vazio,
}

/// O caractere `j` da linha, ou espaco.
pub open spec fn em(s: Seq<char>, j: int) -> char {
    if 0 <= j < s.len() {
        s[j]
    } else {
        ' '
    }
}

/// A linha `i` de uma camada, ou vazia.
pub open spec fn linha_de(c: Seq<Seq<char>>, i: int) -> Seq<char> {
    if 0 <= i < c.len() {
        c[i]
    } else {
        Seq::empty()
    }
}

pub open spec fn maior(a: int, b: int) -> int {
    if a >= b {
        a
    } else {
        b
    }
}

/// A celula composta: a marca ganha do arco, o arco ganha do vazio.
pub open spec fn traco(cm: char, ca: char) -> Traco {
    if cm != ' ' {
        Traco::Marca(cm)
    } else if ca != ' ' {
        Traco::Arco(ca)
    } else {
        Traco::Vazio
    }
}

/// A linha `i` do logo composto, com a largura da mais longa das duas
/// camadas.
pub open spec fn linha_logo(marca: Seq<Seq<char>>, arcos: Seq<Seq<char>>, i: int) -> Seq<Traco> {
    let m = linha_de(marca, i);
    let a = linha_de(arcos, i);
    Seq::new(maior(m.len() as int, a.len() as int) as nat, |j: int| traco(em(m, j), em(a, j)))
}

fn linha_ou_vazia(c: &[&str], i: usize) -> (r: Vec<char>)
    ensures
        r@ == linha_de(c@.map_values(|s: &str| s@), i as int),
{
    if i < c.len() {
        crate::texto::chars_de(c[i])
    } else {
        Vec::new()
    }
}

/// Compoe as duas camadas, linha a linha; a altura e a da mais alta.
pub fn logo(marca: &[&str], arcos: &[&str]) -> (r: Vec<Vec<Traco>>)
    ensures
        r.len() == maior(marca@.len() as int, arcos@.len() as int),
        forall|i: int|
            0 <= i < r.len() ==> #[trigger] r@[i]@ == linha_logo(
                marca@.map_values(|s: &str| s@),
                arcos@.map_values(|s: &str| s@),
                i,
            ),
{
    let altura = if marca.len() >= arcos.len() {
        marca.len()
    } else {
        arcos.len()
    };
    let ghost mv = marca@.map_values(|s: &str| s@);
    let ghost av = arcos@.map_values(|s: &str| s@);
    let mut saida: Vec<Vec<Traco>> = Vec::new();
    let mut i: usize = 0;
    while i < altura
        invariant
            i <= altura,
            altura == maior(marca@.len() as int, arcos@.len() as int),
            mv == marca@.map_values(|s: &str| s@),
            av == arcos@.map_values(|s: &str| s@),
            saida.len() == i,
            forall|k: int| 0 <= k < i ==> #[trigger] saida@[k]@ == linha_logo(mv, av, k),
        decreases altura - i,
    {
        let m = linha_ou_vazia(marca, i);
        let a = linha_ou_vazia(arcos, i);
        let largura = if m.len() >= a.len() {
            m.len()
        } else {
            a.len()
        };
        let mut spans: Vec<Traco> = Vec::new();
        let mut j: usize = 0;
        while j < largura
            invariant
                j <= largura,
                largura == maior(m.len() as int, a.len() as int),
                spans@ == Seq::new(j as nat, |q: int| traco(em(m@, q), em(a@, q))),
            decreases largura - j,
        {
            let cm = if j < m.len() {
                m[j]
            } else {
                ' '
            };
            let ca = if j < a.len() {
                a[j]
            } else {
                ' '
            };
            let t = if cm != ' ' {
                Traco::Marca(cm)
            } else if ca != ' ' {
                Traco::Arco(ca)
            } else {
                Traco::Vazio
            };
            assert(cm == em(m@, j as int));
            assert(ca == em(a@, j as int));
            assert(t == traco(cm, ca));
            let ghost antes = spans@;
            spans.push(t);
            assert(spans@ == antes.push(t));
            j = j + 1;
            assert(spans@ =~= Seq::new(j as nat, |q: int| traco(em(m@, q), em(a@, q))));
        }
        assert(spans@ =~= linha_logo(mv, av, i as int));
        saida.push(spans);
        i = i + 1;
    }
    saida
}

} // verus!

verus! {

/// A marca fica por cima: onde ela tem um caractere, o logo mostra esse
/// caractere da marca, sejam quais forem os arcos; sem arcos, nenhuma
/// celula e de arco; e onde as duas camadas sao espaco, nada aparece.
pub proof fn lei_marca_por_cima(marca: Seq<Seq<char>>, arcos: Seq<Seq<char>>, i: int, j: int)
    requires
        0 <= j < linha_logo(marca, arcos, i).len(),
    ensures
        em(linha_de(marca, i), j) != ' ' ==> linha_logo(marca, arcos, i)[j] == Traco::Marca(
            em(linha_de(marca, i), j),
        ),
        em(linha_de(marca, i), j) == ' ' && em(linha_de(arcos, i), j) == ' ' ==> linha_logo(
            marca,
            arcos,
            i,
        )[j] == Traco::Vazio,
        j < linha_logo(marca, Seq::empty(), i).len() ==> !(linha_logo(marca, Seq::empty(), i)[j] is Arco),
        em(linha_de(marca, i), j) == ' ' ==> linha_logo(marca, arcos, i)[j] == linha_logo(
            Seq::empty(),
            arcos,
            i,
        )[j] || j >= linha_logo(Seq::empty(), arcos, i).len(),
{
    assert(em(linha_de(Seq::<Seq<char>>::empty(), i), j) == ' ');
}

} // verus!
