//! Texto: conversao entre `str`, `String` e sequencias de `char`.
use vstd::prelude::*;

verus! {

/// Chama `String::push` da biblioteca padrao. O contrato afirma o que a
/// documentacao dela diz: o texto passa a ter os mesmos caracteres de antes
/// com `c` acrescentado no fim.
#[verifier::external_body]
pub(crate) fn empurra_char(s: &mut String, c: char)
    ensures
        final(s)@ == old(s)@.push(c),
{
    s.push(c)
}

/// Os caracteres de um texto, em ordem.
pub fn chars_de(s: &str) -> (r: Vec<char>)
    ensures
        r@ == s@,
{
    let mut v: Vec<char> = Vec::new();
    for c in it: s.chars()
        invariant
            v@ == it.seq().take(it.index() as int),
    {
        v.push(c);
    }
    v
}

/// Um `String` com exatamente os caracteres dados.
pub fn string_de(v: &Vec<char>) -> (r: String)
    ensures
        r@ == v@,
{
    let mut s = String::new();
    for i in 0..v.len()
        invariant
            s@ == v@.take(i as int),
    {
        empurra_char(&mut s, v[i]);
    }
    s
}

} // verus!

verus! {

/// O mesmo criterio de `char::is_whitespace`: a propriedade White_Space do
/// Unicode.
pub open spec fn espaco(c: char) -> bool {
    let u = c as u32;
    ||| 0x9 <= u <= 0xd
    ||| u == 0x20
    ||| u == 0x85
    ||| u == 0xa0
    ||| u == 0x1680
    ||| 0x2000 <= u <= 0x200a
    ||| u == 0x2028
    ||| u == 0x2029
    ||| u == 0x202f
    ||| u == 0x205f
    ||| u == 0x3000
}

pub fn eh_espaco(c: char) -> (r: bool)
    ensures
        r == espaco(c),
{
    let u = c as u32;
    (0x9 <= u && u <= 0xd) || u == 0x20 || u == 0x85 || u == 0xa0 || u == 0x1680 || (0x2000 <= u
        && u <= 0x200a) || u == 0x2028 || u == 0x2029 || u == 0x202f || u == 0x205f || u == 0x3000
}

/// `trim_start`: sem os espacos do comeco.
pub open spec fn sem_espaco_ini(s: Seq<char>) -> Seq<char>
    decreases s.len(),
{
    if s.len() > 0 && espaco(s[0]) {
        sem_espaco_ini(s.drop_first())
    } else {
        s
    }
}

/// `trim_end`: sem os espacos do fim.
pub open spec fn sem_espaco_fim(s: Seq<char>) -> Seq<char>
    decreases s.len(),
{
    if s.len() > 0 && espaco(s.last()) {
        sem_espaco_fim(s.drop_last())
    } else {
        s
    }
}

/// `trim`: sem espaco nas duas pontas.
pub open spec fn apara(s: Seq<char>) -> Seq<char> {
    sem_espaco_fim(sem_espaco_ini(s))
}

/// Primeira posicao a partir de `i` que guarda `c`, ou o fim.
pub open spec fn acha(s: Seq<char>, i: int, c: char) -> int
    decreases s.len() - i,
{
    if i < 0 || i >= s.len() {
        s.len() as int
    } else if s[i] == c {
        i
    } else {
        acha(s, i + 1, c)
    }
}

pub proof fn lema_acha(s: Seq<char>, i: int, c: char)
    requires
        0 <= i <= s.len(),
    ensures
        i <= acha(s, i, c) <= s.len(),
        acha(s, i, c) < s.len() ==> s[acha(s, i, c)] == c,
        forall|k: int| i <= k < acha(s, i, c) ==> s[k] != c,
    decreases s.len() - i,
{
    if i < s.len() && s[i] != c {
        lema_acha(s, i + 1, c);
    }
}

/// `acha` na sequencia concreta.
pub fn acha_em(v: &Vec<char>, i: usize, c: char) -> (r: usize)
    requires
        i <= v.len(),
    ensures
        r == acha(v@, i as int, c),
        i <= r <= v.len(),
{
    proof {
        lema_acha(v@, i as int, c);
    }
    let mut k = i;
    while k < v.len() && v[k] != c
        invariant
            i <= k <= v.len(),
            acha(v@, k as int, c) == acha(v@, i as int, c),
        decreases v.len() - k,
    {
        k = k + 1;
    }
    k
}

/// Uma copia de `v[a..b]`.
pub fn trecho(v: &Vec<char>, a: usize, b: usize) -> (r: Vec<char>)
    requires
        a <= b <= v.len(),
    ensures
        r@ == v@.subrange(a as int, b as int),
{
    let mut r: Vec<char> = Vec::new();
    let mut k = a;
    while k < b
        invariant
            a <= k <= b <= v.len(),
            r@ == v@.subrange(a as int, k as int),
        decreases b - k,
    {
        r.push(v[k]);
        k = k + 1;
    }
    r
}

proof fn lema_sem_espaco_ini(s: Seq<char>, i: int, n: int)
    requires
        0 <= i < n <= s.len(),
        espaco(s[i]),
    ensures
        sem_espaco_ini(s.subrange(i, n)) == sem_espaco_ini(s.subrange(i + 1, n)),
{
    assert(s.subrange(i, n).drop_first() =~= s.subrange(i + 1, n));
}

proof fn lema_sem_espaco_fim(s: Seq<char>, a: int, j: int)
    requires
        0 <= a < j <= s.len(),
        espaco(s[j - 1]),
    ensures
        sem_espaco_fim(s.subrange(a, j)) == sem_espaco_fim(s.subrange(a, j - 1)),
{
    assert(s.subrange(a, j).drop_last() =~= s.subrange(a, j - 1));
}

/// `trim` sobre o trecho `v[ini..fim]`: devolve as pontas do que sobra.
pub fn apara_em(v: &Vec<char>, ini: usize, fim: usize) -> (r: (usize, usize))
    requires
        ini <= fim <= v.len(),
    ensures
        ini <= r.0 <= r.1 <= fim,
        v@.subrange(r.0 as int, r.1 as int) == apara(v@.subrange(ini as int, fim as int)),
{
    let mut a = ini;
    while a < fim && eh_espaco(v[a])
        invariant
            ini <= a <= fim <= v.len(),
            sem_espaco_ini(v@.subrange(a as int, fim as int)) == sem_espaco_ini(
                v@.subrange(ini as int, fim as int),
            ),
        decreases fim - a,
    {
        proof {
            lema_sem_espaco_ini(v@, a as int, fim as int);
        }
        a = a + 1;
    }
    let ghost meio = v@.subrange(a as int, fim as int);
    assert(sem_espaco_ini(meio) == meio);
    let mut b = fim;
    while b > a && eh_espaco(v[b - 1])
        invariant
            ini <= a <= b <= fim <= v.len(),
            sem_espaco_fim(v@.subrange(a as int, b as int)) == sem_espaco_fim(meio),
        decreases b,
    {
        proof {
            lema_sem_espaco_fim(v@, a as int, b as int);
        }
        b = b - 1;
    }
    assert(sem_espaco_fim(v@.subrange(a as int, b as int)) == v@.subrange(a as int, b as int));
    (a, b)
}

} // verus!

verus! {

/// O caractere de um digito decimal.
pub open spec fn digito(d: nat) -> char {
    if d == 0 {
        '0'
    } else if d == 1 {
        '1'
    } else if d == 2 {
        '2'
    } else if d == 3 {
        '3'
    } else if d == 4 {
        '4'
    } else if d == 5 {
        '5'
    } else if d == 6 {
        '6'
    } else if d == 7 {
        '7'
    } else if d == 8 {
        '8'
    } else {
        '9'
    }
}

pub fn digito_de(d: u64) -> (c: char)
    requires
        d < 10,
    ensures
        c == digito(d as nat),
{
    if d == 0 {
        '0'
    } else if d == 1 {
        '1'
    } else if d == 2 {
        '2'
    } else if d == 3 {
        '3'
    } else if d == 4 {
        '4'
    } else if d == 5 {
        '5'
    } else if d == 6 {
        '6'
    } else if d == 7 {
        '7'
    } else if d == 8 {
        '8'
    } else {
        '9'
    }
}

/// A escrita decimal de `n`, como a de `format!("{}", n)`.
pub open spec fn decimal(n: nat) -> Seq<char>
    decreases n,
{
    if n < 10 {
        seq![digito(n)]
    } else {
        decimal(n / 10).push(digito(n % 10))
    }
}

/// `format!("{:02}", n)`: pelo menos dois digitos, zero a esquerda.
pub open spec fn decimal2(n: nat) -> Seq<char> {
    if n < 10 {
        seq!['0', digito(n)]
    } else {
        decimal(n)
    }
}

pub fn decimal_de(n: u64) -> (r: Vec<char>)
    ensures
        r@ == decimal(n as nat),
    decreases n,
{
    if n < 10 {
        let mut v: Vec<char> = Vec::new();
        v.push(digito_de(n));
        v
    } else {
        let mut v = decimal_de(n / 10);
        v.push(digito_de(n % 10));
        v
    }
}

pub fn decimal2_de(n: u64) -> (r: Vec<char>)
    ensures
        r@ == decimal2(n as nat),
{
    if n < 10 {
        let mut v: Vec<char> = Vec::new();
        v.push('0');
        v.push(digito_de(n));
        v
    } else {
        decimal_de(n)
    }
}

/// A escrita decimal de um inteiro com sinal, como a de `format!("{}", n)`:
/// `-` antes do modulo quando negativo.
pub open spec fn decimal_com_sinal(n: int) -> Seq<char> {
    if n < 0 {
        seq!['-'] + decimal((-n) as nat)
    } else {
        decimal(n as nat)
    }
}

pub fn decimal_i64_de(n: i64) -> (r: Vec<char>)
    ensures
        r@ == decimal_com_sinal(n as int),
{
    if n < 0 {
        let m: u64 = (-(n + 1)) as u64 + 1;
        let d = decimal_de(m);
        let mut v: Vec<char> = Vec::new();
        v.push('-');
        junta(&mut v, &d);
        v
    } else {
        decimal_de(n as u64)
    }
}

/// Acrescenta os caracteres de `b` ao fim de `a`.
pub fn junta(a: &mut Vec<char>, b: &Vec<char>)
    ensures
        final(a)@ == old(a)@ + b@,
{
    let mut k: usize = 0;
    while k < b.len()
        invariant
            k <= b.len(),
            a@ == old(a)@ + b@.take(k as int),
        decreases b.len() - k,
    {
        a.push(b[k]);
        k = k + 1;
        assert(b@.take(k as int) =~= b@.take(k - 1).push(b@[k - 1]));
    }
    assert(b@.take(b.len() as int) =~= b@);
}

/// Acrescenta os caracteres de um texto ao fim de `a`.
pub fn junta_str(a: &mut Vec<char>, s: &str)
    ensures
        final(a)@ == old(a)@ + s@,
{
    let b = chars_de(s);
    junta(a, &b);
}

} // verus!

verus! {

/// A ordem de `String`: lexicografica pelo codigo de cada caractere (que e a
/// mesma ordem dos bytes em UTF-8).
pub open spec fn menor(a: Seq<char>, b: Seq<char>) -> bool
    decreases a.len(),
{
    if a.len() == 0 {
        b.len() > 0
    } else if b.len() == 0 {
        false
    } else if a[0] != b[0] {
        (a[0] as u32) < (b[0] as u32)
    } else {
        menor(a.drop_first(), b.drop_first())
    }
}

pub proof fn lema_menor_irreflexivo(a: Seq<char>)
    ensures
        !menor(a, a),
    decreases a.len(),
{
    if a.len() > 0 {
        lema_menor_irreflexivo(a.drop_first());
    }
}

pub proof fn lema_menor_total(a: Seq<char>, b: Seq<char>)
    ensures
        a == b || menor(a, b) || menor(b, a),
        !(menor(a, b) && menor(b, a)),
        !menor(a, a),
    decreases a.len(),
{
    lema_menor_irreflexivo(a);
    if a.len() > 0 && b.len() > 0 {
        lema_menor_total(a.drop_first(), b.drop_first());
        vstd::utf8::char_u32_cast(a[0], a[0] as u32);
        vstd::utf8::char_u32_cast(b[0], b[0] as u32);
        if a[0] == b[0] && a.drop_first() == b.drop_first() {
            assert forall|k: int| 0 <= k < a.len() implies a[k] == b[k] by {
                if k > 0 {
                    assert(a[k] == a.drop_first()[k - 1]);
                    assert(b[k] == b.drop_first()[k - 1]);
                }
            }
            assert(a =~= b);
        }
    } else if a.len() == 0 && b.len() == 0 {
        assert(a =~= b);
    }
}

pub proof fn lema_menor_trans(a: Seq<char>, b: Seq<char>, c: Seq<char>)
    requires
        menor(a, b),
        menor(b, c),
    ensures
        menor(a, c),
    decreases a.len(),
{
    if a.len() > 0 && b.len() > 0 && c.len() > 0 {
        if a[0] == b[0] && b[0] == c[0] {
            lema_menor_trans(a.drop_first(), b.drop_first(), c.drop_first());
        }
    }
}

/// Compara dois textos pela ordem de `String`.
pub fn menor_que(a: &Vec<char>, b: &Vec<char>) -> (r: bool)
    ensures
        r == menor(a@, b@),
{
    let mut i: usize = 0;
    assert(a@.skip(0) =~= a@);
    assert(b@.skip(0) =~= b@);
    while i < a.len() && i < b.len() && a[i] == b[i]
        invariant
            i <= a.len(),
            i <= b.len(),
            menor(a@.skip(i as int), b@.skip(i as int)) == menor(a@, b@),
        decreases a.len() - i,
    {
        assert(a@.skip(i as int).drop_first() =~= a@.skip(i + 1));
        assert(b@.skip(i as int).drop_first() =~= b@.skip(i + 1));
        i = i + 1;
    }
    if i == a.len() {
        i < b.len()
    } else if i == b.len() {
        false
    } else {
        (a[i] as u32) < (b[i] as u32)
    }
}

pub fn menor_str(a: &String, b: &String) -> (r: bool)
    ensures
        r == menor(a@, b@),
{
    let va = chars_de(a.as_str());
    let vb = chars_de(b.as_str());
    menor_que(&va, &vb)
}

/// As vistas de uma lista de textos.
pub open spec fn vistas(s: Seq<String>) -> Seq<Seq<char>> {
    s.map_values(|x: String| x@)
}

/// Em ordem nao decrescente.
pub open spec fn ordenada(s: Seq<Seq<char>>) -> bool {
    forall|i: int, j: int| 0 <= i < j < s.len() ==> !menor(#[trigger] s[j], #[trigger] s[i])
}

/// Em ordem crescente, sem repeticao.
pub open spec fn crescente(s: Seq<Seq<char>>) -> bool {
    forall|i: int, j: int| 0 <= i < j < s.len() ==> menor(#[trigger] s[i], #[trigger] s[j])
}

/// `sort` de uma lista de `String`.
pub fn ordena(v: &Vec<String>) -> (r: Vec<String>)
    ensures
        ordenada(vistas(r@)),
        vistas(r@).to_multiset() == vistas(v@).to_multiset(),
{
    let mut r: Vec<String> = Vec::new();
    let mut i: usize = 0;
    assert(vistas(r@) =~= vistas(v@.take(0)));
    while i < v.len()
        invariant
            i <= v.len(),
            ordenada(vistas(r@)),
            vistas(r@).to_multiset() == vistas(v@.take(i as int)).to_multiset(),
        decreases v.len() - i,
    {
        let x = v[i].clone();
        let mut p: usize = 0;
        while p < r.len() && !menor_str(&x, &r[p])
            invariant
                p <= r.len(),
                forall|k: int| 0 <= k < p ==> !menor(x@, #[trigger] vistas(r@)[k]),
            decreases r.len() - p,
        {
            p = p + 1;
        }
        let ghost antes = vistas(r@);
        r.insert(p, x);
        proof {
            assert(vistas(r@) =~= antes.insert(p as int, x@));
            assert forall|a: int, b: int| 0 <= a < b < vistas(r@).len() implies !menor(
                #[trigger] vistas(r@)[b],
                #[trigger] vistas(r@)[a],
            ) by {
                let s = vistas(r@);
                if a < p && b == p {
                    lema_menor_total(x@, antes[a]);
                } else if a == p && b > p {
                    lema_menor_total(x@, antes[p as int]);
                    lema_menor_total(antes[p as int], antes[b - 1]);
                    if menor(antes[p as int], antes[b - 1]) {
                        lema_menor_trans(x@, antes[p as int], antes[b - 1]);
                    }
                    lema_menor_total(x@, antes[b - 1]);
                } else if a < p && b > p {
                    assert(s[a] == antes[a]);
                    assert(s[b] == antes[b - 1]);
                } else if a > p {
                    assert(s[a] == antes[a - 1]);
                    assert(s[b] == antes[b - 1]);
                }
            }
            vstd::seq_lib::to_multiset_insert(antes, p as int, x@);
            assert(v@.take(i + 1) =~= v@.take(i as int).push(v@[i as int]));
            assert(vistas(v@.take(i + 1)) =~= vistas(v@.take(i as int)).push(x@));
            vstd::seq_lib::to_multiset_build(vistas(v@.take(i as int)), x@);
        }
        i = i + 1;
    }
    assert(v@.take(v.len() as int) =~= v@);
    r
}

} // verus!

verus! {

/// `sort` seguido de `dedup`: os textos distintos, em ordem crescente.
pub fn unicos(v: &Vec<String>) -> (r: Vec<String>)
    ensures
        crescente(vistas(r@)),
        vistas(r@).to_set() == vistas(v@).to_set(),
{
    let s = ordena(v);
    let mut r: Vec<String> = Vec::new();
    let mut i: usize = 0;
    assert(vistas(r@).to_set() =~= vistas(s@.take(0)).to_set());
    while i < s.len()
        invariant
            i <= s.len(),
            ordenada(vistas(s@)),
            crescente(vistas(r@)),
            vistas(r@).to_set() == vistas(s@.take(i as int)).to_set(),
            i > 0 ==> r.len() > 0 && vistas(r@).last() == vistas(s@)[i - 1],
            i == 0 ==> r.len() == 0,
        decreases s.len() - i,
    {
        let ghost antes = vistas(r@);
        assert(vistas(s@.take(i + 1)) =~= vistas(s@.take(i as int)).push(vistas(s@)[i as int]));
        if r.len() > 0 && r[r.len() - 1] == s[i] {
            proof {
                vistas(s@.take(i as int)).lemma_push_to_set_commute(vistas(s@)[i as int]);
                assert(antes.contains(antes.last())) by {
                    assert(antes[antes.len() - 1] == antes.last());
                }
                assert(antes.to_set().contains(antes.last()));
                assert(vistas(s@.take(i + 1)).to_set() =~= vistas(s@.take(i as int)).to_set());
            }
        } else {
            let x = s[i].clone();
            r.push(x);
            proof {
                assert(vistas(r@) =~= antes.push(x@));
                if i > 0 {
                    lema_menor_total(vistas(s@)[i - 1], vistas(s@)[i as int]);
                    assert(menor(antes.last(), x@));
                }
                assert forall|a: int, b: int| 0 <= a < b < vistas(r@).len() implies menor(
                    #[trigger] vistas(r@)[a],
                    #[trigger] vistas(r@)[b],
                ) by {
                    if b == vistas(r@).len() - 1 && a < b - 1 {
                        lema_menor_trans(antes[a], antes.last(), x@);
                    }
                }
                vistas(s@.take(i as int)).lemma_push_to_set_commute(x@);
                antes.lemma_push_to_set_commute(x@);
                assert(vistas(r@).to_set() =~= vistas(s@.take(i + 1)).to_set());
            }
        }
        i = i + 1;
    }
    proof {
        assert(s@.take(s.len() as int) =~= s@);
        assert forall|x: Seq<char>| vistas(s@).contains(x) <==> vistas(v@).contains(x) by {
            vstd::seq_lib::to_multiset_contains(vistas(s@), x);
            vstd::seq_lib::to_multiset_contains(vistas(v@), x);
        }
        assert(vistas(s@).to_set() =~= vistas(v@).to_set());
    }
    r
}

} // verus!

verus! {

/// Dois trechos iguais, caractere a caractere.
pub fn iguais(a: &Vec<char>, b: &Vec<char>) -> (r: bool)
    ensures
        r == (a@ == b@),
{
    if a.len() != b.len() {
        return false;
    }
    let mut i: usize = 0;
    while i < a.len()
        invariant
            i <= a.len() == b.len(),
            a@.take(i as int) == b@.take(i as int),
        decreases a.len() - i,
    {
        if a[i] != b[i] {
            return false;
        }
        assert(a@.take(i + 1) =~= a@.take(i as int).push(a@[i as int]));
        assert(b@.take(i + 1) =~= b@.take(i as int).push(b@[i as int]));
        i = i + 1;
    }
    assert(a@.take(a.len() as int) =~= a@);
    assert(b@.take(b.len() as int) =~= b@);
    true
}

/// `==` entre dois `str`.
pub fn str_igual(a: &str, b: &str) -> (r: bool)
    ensures
        r == (a@ == b@),
{
    let va = chars_de(a);
    let vb = chars_de(b);
    iguais(&va, &vb)
}

} // verus!

verus! {

/// `starts_with`.
pub open spec fn comeca(s: Seq<char>, p: Seq<char>) -> bool {
    p.len() <= s.len() && s.subrange(0, p.len() as int) == p
}

/// `contains` de um trecho.
pub open spec fn contem(s: Seq<char>, p: Seq<char>) -> bool {
    exists|i: int| 0 <= i && i + p.len() <= s.len() && #[trigger] s.subrange(i, i + p.len()) == p
}

/// `v[a..]` comeca com `p`.
pub fn comeca_em(v: &Vec<char>, a: usize, p: &Vec<char>) -> (r: bool)
    requires
        a <= v.len(),
    ensures
        r == comeca(v@.subrange(a as int, v.len() as int), p@),
{
    if p.len() > v.len() - a {
        return false;
    }
    let t = trecho(v, a, a + p.len());
    let r = iguais(&t, p);
    assert(v@.subrange(a as int, v.len() as int).subrange(0, p.len() as int) =~= t@);
    r
}

/// `s.starts_with(p)`.
pub fn comeca_com(s: &Vec<char>, p: &str) -> (r: bool)
    ensures
        r == comeca(s@, p@),
{
    let pv = chars_de(p);
    assert(s@.subrange(0, s.len() as int) =~= s@);
    comeca_em(s, 0, &pv)
}

/// `s.contains(p)`.
pub fn contem_em(s: &Vec<char>, p: &str) -> (r: bool)
    ensures
        r == contem(s@, p@),
{
    let pv = chars_de(p);
    if pv.len() > s.len() {
        return false;
    }
    if pv.len() == 0 {
        assert(s@.subrange(0, 0 + p@.len() as int) =~= p@);
        return true;
    }
    let mut i: usize = 0;
    let lim = s.len() - pv.len();
    while i <= lim
        invariant
            pv@ == p@,
            0 < pv.len() <= s.len(),
            lim == s.len() - pv.len(),
            i <= lim + 1,
            forall|j: int| 0 <= j < i ==> #[trigger] s@.subrange(j, j + pv.len()) != pv@,
        decreases lim + 1 - i,
    {
        let t = trecho(s, i, i + pv.len());
        if iguais(&t, &pv) {
            return true;
        }
        i = i + 1;
    }
    false
}

/// `join`: os textos separados por `sep`.
pub open spec fn juntados(l: Seq<Seq<char>>, sep: Seq<char>) -> Seq<char>
    decreases l.len(),
{
    if l.len() == 0 {
        Seq::empty()
    } else if l.len() == 1 {
        l[0]
    } else {
        juntados(l.drop_last(), sep) + sep + l.last()
    }
}

/// `join` de uma lista de `String`.
pub fn junta_lista(l: &Vec<String>, sep: &str) -> (r: String)
    ensures
        r@ == juntados(vistas(l@), sep@),
{
    let mut v: Vec<char> = Vec::new();
    let mut i: usize = 0;
    while i < l.len()
        invariant
            i <= l.len(),
            v@ == juntados(vistas(l@.take(i as int)), sep@),
        decreases l.len() - i,
    {
        if i > 0 {
            junta_str(&mut v, sep);
        }
        junta_str(&mut v, l[i].as_str());
        proof {
            let a = vistas(l@.take(i + 1));
            assert(a.drop_last() =~= vistas(l@.take(i as int)));
            assert(a.last() == l@[i as int]@);
            if i == 0 {
                assert(v@ =~= a[0]);
            }
        }
        i = i + 1;
    }
    assert(l@.take(l.len() as int) =~= l@);
    string_de(&v)
}

/// Letras ASCII em minuscula; o resto fica.
pub open spec fn minuscula(c: char) -> char {
    let u = c as u32;
    if 65 <= u <= 90 {
        (u + 32) as char
    } else {
        c
    }
}

pub fn minuscula_de(c: char) -> (r: char)
    ensures
        r == minuscula(c),
{
    let u = c as u32;
    if 65 <= u && u <= 90 {
        ((u + 32) as u8) as char
    } else {
        c
    }
}

} // verus!

verus! {

/// Primeira posicao `j >= i` onde `p` aparece inteiro, ou o fim.
pub open spec fn acha_trecho(s: Seq<char>, i: int, p: Seq<char>) -> int
    decreases s.len() + 1 - i,
{
    if i < 0 || i + p.len() > s.len() {
        s.len() as int
    } else if s.subrange(i, i + p.len()) == p {
        i
    } else {
        acha_trecho(s, i + 1, p)
    }
}

/// Quando acha, o trecho cabe e coincide com `p` ali.
pub proof fn lema_acha_trecho(s: Seq<char>, i: int, p: Seq<char>)
    requires
        0 <= i,
        acha_trecho(s, i, p) < s.len(),
    ensures
        i <= acha_trecho(s, i, p),
        acha_trecho(s, i, p) + p.len() <= s.len(),
        s.subrange(acha_trecho(s, i, p), acha_trecho(s, i, p) + p.len()) == p,
    decreases s.len() + 1 - i,
{
    if i + p.len() > s.len() {
    } else if s.subrange(i, i + p.len()) == p {
    } else {
        lema_acha_trecho(s, i + 1, p);
    }
}

pub fn acha_trecho_em(s: &Vec<char>, i: usize, p: &str) -> (r: usize)
    requires
        i <= s.len(),
    ensures
        r == acha_trecho(s@, i as int, p@),
        i <= r <= s.len(),
{
    let pv = chars_de(p);
    if pv.len() == 0 {
        assert(s@.subrange(i as int, i as int) =~= p@);
        return i;
    }
    if pv.len() > s.len() {
        return s.len();
    }
    let lim = s.len() - pv.len();
    let mut j = i;
    while j <= lim
        invariant
            i <= j <= s.len(),
            pv@ == p@,
            0 < pv.len() <= s.len(),
            lim == s.len() - pv.len(),
            acha_trecho(s@, j as int, p@) == acha_trecho(s@, i as int, p@),
        decreases s.len() - j,
    {
        assert(s@.subrange(j as int, s.len() as int).subrange(0, pv.len() as int) =~= s@.subrange(
            j as int,
            j + pv.len(),
        ));
        if comeca_em(s, j, &pv) {
            return j;
        }
        j = j + 1;
    }
    s.len()
}

} // verus!

verus! {

/// Ultima posicao de `c`, ou -1.
pub open spec fn ultimo_de(s: Seq<char>, c: char) -> int
    decreases s.len(),
{
    if s.len() == 0 {
        -1
    } else if s.last() == c {
        s.len() - 1
    } else {
        ultimo_de(s.drop_last(), c)
    }
}

pub fn ultimo_de_em(v: &Vec<char>, c: char) -> (r: Option<usize>)
    ensures
        match r {
            Some(k) => k == ultimo_de(v@, c) && k < v.len(),
            None => ultimo_de(v@, c) == -1,
        },
{
    let mut j = v.len();
    assert(v@.subrange(0, j as int) =~= v@);
    while j > 0
        invariant
            j <= v.len(),
            ultimo_de(v@.subrange(0, j as int), c) == ultimo_de(v@, c),
        decreases j,
    {
        if v[j - 1] == c {
            return Some(j - 1);
        }
        assert(v@.subrange(0, j as int).drop_last() =~= v@.subrange(0, j - 1));
        j = j - 1;
    }
    None
}

} // verus!

verus! {

/// `a` vem antes de `b` na ordem de `String` exatamente quando `a` e um
/// comeco proprio de `b`, ou quando, na primeira posicao em que diferem, o
/// caractere de `a` tem codigo menor.
pub proof fn lei_ordem_lexicografica(a: Seq<char>, b: Seq<char>)
    ensures
        menor(a, b) <==> ((a.len() < b.len() && b.take(a.len() as int) == a) || exists|i: int|
            0 <= i < a.len() && i < b.len() && a.take(i) == b.take(i) && (#[trigger] a[i] as u32) < (
            b[i] as u32)),
    decreases a.len(),
{
    if a.len() == 0 {
        assert(b.take(0) =~= a);
    } else if b.len() == 0 {
    } else if a[0] != b[0] {
        if (a[0] as u32) < (b[0] as u32) {
            assert(a.take(0) =~= b.take(0));
        } else {
            if a.len() < b.len() && b.take(a.len() as int) == a {
                assert(b.take(a.len() as int)[0] == b[0]);
            }
            if exists|i: int|
                0 <= i < a.len() && i < b.len() && a.take(i) == b.take(i) && (#[trigger] a[i] as u32)
                    < (b[i] as u32) {
                let i = choose|i: int|
                    0 <= i < a.len() && i < b.len() && a.take(i) == b.take(i) && (#[trigger] a[i] as u32)
                        < (b[i] as u32);
                if i > 0 {
                    assert(a.take(i)[0] == b.take(i)[0]);
                }
            }
        }
    } else {
        let a1 = a.drop_first();
        let b1 = b.drop_first();
        lei_ordem_lexicografica(a1, b1);
        // o comeco proprio
        if a.len() < b.len() && b.take(a.len() as int) == a {
            assert(b1.take(a1.len() as int) =~= a1) by {
                assert forall|k: int| 0 <= k < a1.len() implies #[trigger] b1.take(a1.len() as int)[k] == a1[k] by {
                    assert(b.take(a.len() as int)[k + 1] == a[k + 1]);
                }
            }
        }
        if a1.len() < b1.len() && b1.take(a1.len() as int) == a1 {
            assert(b.take(a.len() as int) =~= a) by {
                assert forall|k: int| 0 <= k < a.len() implies #[trigger] b.take(a.len() as int)[k] == a[k] by {
                    if k > 0 {
                        assert(b1.take(a1.len() as int)[k - 1] == a1[k - 1]);
                    }
                }
            }
        }
        // a primeira diferenca
        if exists|i: int|
            0 <= i < a.len() && i < b.len() && a.take(i) == b.take(i) && (#[trigger] a[i] as u32) < (
            b[i] as u32) {
            let i = choose|i: int|
                0 <= i < a.len() && i < b.len() && a.take(i) == b.take(i) && (#[trigger] a[i] as u32) < (
                b[i] as u32);
            assert(i > 0);
            assert(a1.take(i - 1) =~= b1.take(i - 1)) by {
                assert forall|k: int| 0 <= k < i - 1 implies #[trigger] a1.take(i - 1)[k] == b1.take(i - 1)[k] by {
                    assert(a.take(i)[k + 1] == b.take(i)[k + 1]);
                }
            }
            assert(a1[i - 1] == a[i] && b1[i - 1] == b[i]);
        }
        if exists|i: int|
            0 <= i < a1.len() && i < b1.len() && a1.take(i) == b1.take(i) && (#[trigger] a1[i] as u32)
                < (b1[i] as u32) {
            let i = choose|i: int|
                0 <= i < a1.len() && i < b1.len() && a1.take(i) == b1.take(i) && (#[trigger] a1[i] as u32)
                    < (b1[i] as u32);
            assert(a.take(i + 1) =~= b.take(i + 1)) by {
                assert forall|k: int| 0 <= k < i + 1 implies #[trigger] a.take(i + 1)[k] == b.take(i + 1)[k] by {
                    if k > 0 {
                        assert(a1.take(i)[k - 1] == b1.take(i)[k - 1]);
                    }
                }
            }
            assert(a[i + 1] == a1[i] && b[i + 1] == b1[i]);
        }
    }
}

} // verus!
