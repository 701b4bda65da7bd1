//! Historico limitado dos graficos: uma fila que guarda as ultimas amostras.
use std::collections::VecDeque;
use vstd::prelude::*;

verus! {

/// A fila depois de receber `v`: se ja tinha `limite` amostras, a mais
/// antiga sai.
pub open spec fn empurrado<T>(s: Seq<T>, v: T, limite: nat) -> Seq<T> {
    if s.len() >= limite && s.len() > 0 {
        s.drop_first().push(v)
    } else {
        s.push(v)
    }
}

/// A fila depois de receber cada valor de `vs`, em ordem.
pub open spec fn empurrados<T>(s: Seq<T>, vs: Seq<T>, limite: nat) -> Seq<T>
    decreases vs.len(),
{
    if vs.len() == 0 {
        s
    } else {
        empurrado(empurrados(s, vs.drop_last(), limite), vs.last(), limite)
    }
}

/// Os ultimos `n` valores, na ordem em que vieram.
pub open spec fn ultimos<T>(vs: Seq<T>, n: nat) -> Seq<T> {
    if vs.len() <= n {
        vs
    } else {
        vs.subrange(vs.len() - n, vs.len() as int)
    }
}

/// Acrescenta uma amostra; acima do limite a mais antiga sai.
pub fn empurra<T>(fila: &mut VecDeque<T>, v: T, limite: usize)
    ensures
        final(fila)@ == empurrado(old(fila)@, v, limite as nat),
{
    if fila.len() >= limite {
        let _ = fila.pop_front();
    }
    fila.push_back(v);
    proof {
        if old(fila)@.len() >= limite && old(fila)@.len() > 0 {
            assert(old(fila)@.subrange(1, old(fila)@.len() as int) =~= old(fila)@.drop_first());
        }
    }
}

/// Preenche a fila com a parte final de uma serie antiga: so os ultimos
/// `limite` valores entram, na ordem em que vieram.
pub fn semeia<T>(fila: &mut VecDeque<T>, valores: Vec<T>, limite: usize)
    ensures
        final(fila)@ == empurrados(old(fila)@, ultimos(valores@, limite as nat), limite as nat),
{
    let n = valores.len();
    let ini = if n > limite {
        n - limite
    } else {
        0
    };
    let ghost vs = valores@;
    let ghost alvo = ultimos(vs, limite as nat);
    assert(alvo =~= vs.subrange(ini as int, n as int));
    let ghost f0 = fila@;
    let mut k: usize = 0;
    assert(vs.subrange(ini as int, ini as int) =~= Seq::<T>::empty());
    for x in it: valores.into_iter()
        invariant
            n == vs.len(),
            ini <= n,
            alvo == vs.subrange(ini as int, n as int),
            it.seq() == vs,
            k == it.index(),
            fila@ == empurrados(f0, vs.subrange(ini as int, if k < ini { ini as int } else { k as int }), limite as nat),
    {
        if k >= ini {
            empurra(fila, x, limite);
            proof {
                let a = vs.subrange(ini as int, k + 1);
                assert(a.drop_last() =~= vs.subrange(ini as int, k as int));
            }
        } else {
            proof {
                if k + 1 == ini {
                    assert(vs.subrange(ini as int, ini as int) =~= vs.subrange(ini as int, ini as int));
                }
            }
        }
        k = k + 1;
    }
}

/// Copia dos ultimos `n` valores (todos, se forem menos), na ordem.
pub fn cauda<T: Copy>(valores: &Vec<T>, n: usize) -> (r: Vec<T>)
    ensures
        r@ == ultimos(valores@, n as nat),
{
    let ini = if valores.len() > n {
        valores.len() - n
    } else {
        0
    };
    let mut r: Vec<T> = Vec::new();
    let mut k = ini;
    while k < valores.len()
        invariant
            ini <= k <= valores.len(),
            ini == (if valores.len() > n {
                valores.len() - n
            } else {
                0
            }),
            r@ == valores@.subrange(ini as int, k as int),
        decreases valores.len() - k,
    {
        r.push(valores[k]);
        k = k + 1;
    }
    assert(valores@.subrange(0, valores.len() as int) =~= valores@);
    r
}

/// Com a fila dentro do limite (ou com uma amostra so, se o limite for zero),
/// receber uma amostra a mantem dentro dele, e a amostra nova e a ultima.
pub proof fn lei_empurra_limitado<T>(s: Seq<T>, v: T, limite: nat)
    requires
        s.len() <= (if limite == 0 {
            1
        } else {
            limite
        }),
    ensures
        empurrado(s, v, limite).len() <= (if limite == 0 {
            1
        } else {
            limite
        }),
        empurrado(s, v, limite).last() == v,
{
}

/// O que a fila guarda depois de uma amostra e sempre o fim da fila antiga
/// seguida da amostra: nenhum valor e inventado ou reordenado.
pub proof fn lei_empurra_sufixo<T>(s: Seq<T>, v: T, limite: nat)
    ensures
        empurrado(s, v, limite).is_suffix_of(s.push(v)),
{
    if s.len() >= limite && s.len() > 0 {
        let r = s.drop_first().push(v);
        assert(s.push(v).subrange(1, s.len() as int + 1) =~= r);
    } else {
        assert(s.push(v).subrange(0, s.len() as int + 1) =~= s.push(v));
    }
}

/// Os ultimos `n` valores sao o fim da serie, com `n` valores, ou a serie
/// toda quando ela tem menos.
pub proof fn lei_ultimos<T>(vs: Seq<T>, n: nat)
    ensures
        ultimos(vs, n).len() == if vs.len() <= n {
            vs.len()
        } else {
            n
        },
        ultimos(vs, n).is_suffix_of(vs),
{
}

} // verus!
