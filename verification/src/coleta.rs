//! Coleta: o formato texto do node_exporter, nomes de container do Swarm,
//! a classificacao de erro de rede e a montagem das URLs.
use vstd::prelude::*;

use crate::texto;

verus! {

/// Conjunto de rotulos de uma metrica, na ordem em que apareceram. Uma chave
/// repetida vale pela ultima ocorrencia, como num `HashMap` preenchido em
/// ordem.
pub struct Rotulos {
    pub pares: Vec<(String, String)>,
}

/// O mapa que uma sequencia de pares descreve: o par mais tarde prevalece.
pub open spec fn mapa_de(p: Seq<(Seq<char>, Seq<char>)>) -> Map<Seq<char>, Seq<char>>
    decreases p.len(),
{
    if p.len() == 0 {
        Map::empty()
    } else {
        mapa_de(p.drop_last()).insert(p.last().0, p.last().1)
    }
}

pub proof fn lema_mapa_de_ultimo(p: Seq<(Seq<char>, Seq<char>)>, c: Seq<char>, k: int)
    requires
        0 <= k < p.len(),
        p[k].0 == c,
        forall|j: int| k < j < p.len() ==> p[j].0 != c,
    ensures
        mapa_de(p).contains_key(c),
        mapa_de(p)[c] == p[k].1,
    decreases p.len(),
{
    if k < p.len() - 1 {
        lema_mapa_de_ultimo(p.drop_last(), c, k);
    }
}

pub proof fn lema_mapa_de_ausente(p: Seq<(Seq<char>, Seq<char>)>, c: Seq<char>)
    requires
        forall|j: int| 0 <= j < p.len() ==> p[j].0 != c,
    ensures
        !mapa_de(p).contains_key(c),
    decreases p.len(),
{
    if p.len() > 0 {
        lema_mapa_de_ausente(p.drop_last(), c);
    }
}

impl Rotulos {
    /// Os pares, como texto.
    pub open spec fn vista(&self) -> Seq<(Seq<char>, Seq<char>)> {
        self.pares@.map_values(|p: (String, String)| (p.0@, p.1@))
    }

    pub open spec fn mapa(&self) -> Map<Seq<char>, Seq<char>> {
        mapa_de(self.vista())
    }

    pub fn novo() -> (r: Rotulos)
        ensures
            r.vista() == Seq::<(Seq<char>, Seq<char>)>::empty(),
    {
        let r = Rotulos { pares: Vec::new() };
        assert(r.vista() =~= Seq::<(Seq<char>, Seq<char>)>::empty());
        r
    }

    /// `insert`: a chave passa a valer `valor`.
    pub fn insere(&mut self, chave: String, valor: String)
        ensures
            final(self).vista() == old(self).vista().push((chave@, valor@)),
            final(self).mapa() == old(self).mapa().insert(chave@, valor@),
    {
        let ghost antes = self.vista();
        self.pares.push((chave, valor));
        assert(self.vista() =~= antes.push((chave@, valor@)));
        assert(self.vista().drop_last() =~= antes);
    }

    /// O valor da chave, se houver.
    pub fn get(&self, chave: &str) -> (r: Option<&String>)
        ensures
            r is Some <==> self.mapa().contains_key(chave@),
            r matches Some(v) ==> v@ == self.mapa()[chave@],
    {
        let mut k = self.pares.len();
        while k > 0
            invariant
                k <= self.pares.len(),
                forall|j: int| k <= j < self.vista().len() ==> self.vista()[j].0 != chave@,
            decreases k,
        {
            if texto::str_igual(self.pares[k - 1].0.as_str(), chave) {
                proof {
                    lema_mapa_de_ultimo(self.vista(), chave@, k - 1);
                }
                return Some(&self.pares[k - 1].1);
            }
            k = k - 1;
        }
        proof {
            lema_mapa_de_ausente(self.vista(), chave@);
        }
        None
    }

    /// `rotulo` de uma serie: o valor da chave, ou vazio.
    pub fn rotulo(&self, chave: &str) -> (r: String)
        ensures
            r@ == (if self.mapa().contains_key(chave@) {
                self.mapa()[chave@]
            } else {
                Seq::<char>::empty()
            }),
    {
        match self.get(chave) {
            Some(v) => v.clone(),
            None => String::new(),
        }
    }
}

} // verus!

verus! {

/// Depois de `i`, pula virgulas e espacos.
pub open spec fn pula_sep(s: Seq<char>, i: int) -> int
    decreases s.len() - i,
{
    if 0 <= i < s.len() && (s[i] == ',' || texto::espaco(s[i])) {
        pula_sep(s, i + 1)
    } else {
        i
    }
}

pub proof fn lema_pula_sep(s: Seq<char>, i: int)
    requires
        0 <= i <= s.len(),
    ensures
        i <= pula_sep(s, i) <= s.len(),
    decreases s.len() - i,
{
    if i < s.len() && (s[i] == ',' || texto::espaco(s[i])) {
        lema_pula_sep(s, i + 1);
    }
}

/// `trim_start_matches(',')`.
pub open spec fn sem_virgula_ini(s: Seq<char>) -> Seq<char>
    decreases s.len(),
{
    if s.len() > 0 && s[0] == ',' {
        sem_virgula_ini(s.drop_first())
    } else {
        s
    }
}

/// A chave de um rotulo: `trim`, sem virgulas no comeco, `trim` de novo.
pub open spec fn limpa_chave(s: Seq<char>) -> Seq<char> {
    texto::apara(sem_virgula_ini(texto::apara(s)))
}

/// Os pares `chave="valor"` de uma lista de rotulos, lidos a partir da
/// posicao `i`. A leitura para no primeiro trecho sem `=` ou sem aspas depois
/// do `=`; um valor sem aspas de fechamento vai ate o fim; chave vazia e
/// descartada.
pub open spec fn pares_desde(s: Seq<char>, i: int) -> Seq<(Seq<char>, Seq<char>)>
    decreases s.len() - i,
{
    if i < 0 || i >= s.len() {
        Seq::empty()
    } else {
        let eq = texto::acha(s, i, '=');
        if eq + 1 >= s.len() || s[eq + 1] != '"' {
            Seq::empty()
        } else {
            let fim = texto::acha(s, eq + 2, '"');
            let depois = if fim < s.len() {
                fim + 1
            } else {
                fim
            };
            let prox = pula_sep(s, depois);
            proof {
                texto::lema_acha(s, i, '=');
                texto::lema_acha(s, eq + 2, '"');
                lema_pula_sep(s, depois);
            }
            let chave = limpa_chave(s.subrange(i, eq));
            let resto = pares_desde(s, prox);
            if chave.len() > 0 {
                seq![(chave, s.subrange(eq + 2, fim))] + resto
            } else {
                resto
            }
        }
    }
}

/// Uma chave que a escrita `k="v"` deixa reconhecer: nao vazia, sem `=`,
/// virgula, aspas ou espaco.
pub open spec fn chave_boa(k: Seq<char>) -> bool {
    k.len() > 0 && forall|j: int|
        0 <= j < k.len() ==> #[trigger] k[j] != '=' && k[j] != ',' && k[j] != '"' && !texto::espaco(
            k[j],
        )
}

/// Um valor sem aspas.
pub open spec fn valor_bom(v: Seq<char>) -> bool {
    forall|j: int| 0 <= j < v.len() ==> #[trigger] v[j] != '"'
}

/// Um rotulo escrito: `k="v"`.
pub open spec fn rotulo_escrito(p: (Seq<char>, Seq<char>)) -> Seq<char> {
    p.0 + seq!['=', '"'] + p.1 + seq!['"']
}

/// Uma lista de rotulos escrita, separada por virgulas.
pub open spec fn rotulos_escritos(ps: Seq<(Seq<char>, Seq<char>)>) -> Seq<char>
    decreases ps.len(),
{
    if ps.len() == 0 {
        Seq::empty()
    } else if ps.len() == 1 {
        rotulo_escrito(ps[0])
    } else {
        rotulo_escrito(ps[0]) + seq![','] + rotulos_escritos(ps.drop_first())
    }
}

proof fn lema_chave_limpa(k: Seq<char>)
    requires
        chave_boa(k),
    ensures
        limpa_chave(k) == k,
{
    assert(!texto::espaco(k[0]));
    assert(!texto::espaco(k[k.len() - 1]));
    assert(texto::sem_espaco_ini(k) == k);
    assert(k.last() == k[k.len() - 1]);
    assert(texto::sem_espaco_fim(k) == k);
    assert(texto::apara(k) == k);
    assert(k[0] != ',');
    assert(sem_virgula_ini(k) == k);
}

proof fn lema_primeiro(s: Seq<char>, i: int, n: int, c: char)
    requires
        0 <= i <= n < s.len(),
        s[n] == c,
        forall|j: int| i <= j < n ==> s[j] != c,
    ensures
        texto::acha(s, i, c) == n,
{
    texto::lema_acha(s, i, c);
    if texto::acha(s, i, c) < n {
        assert(s[texto::acha(s, i, c)] == c);
    }
}

proof fn lema_rotulos_escritos(s: Seq<char>, i: int, ps: Seq<(Seq<char>, Seq<char>)>)
    requires
        0 <= i <= s.len(),
        ps.len() > 0,
        s.subrange(i, s.len() as int) == rotulos_escritos(ps),
        forall|q: int| 0 <= q < ps.len() ==> chave_boa(#[trigger] ps[q].0) && valor_bom(ps[q].1),
    ensures
        pares_desde(s, i) == ps,
    decreases ps.len(),
{
    let k = ps[0].0;
    let v = ps[0].1;
    let r0 = rotulo_escrito(ps[0]);
    let kl = k.len() as int;
    let vl = v.len() as int;
    assert(chave_boa(k) && valor_bom(v));
    let e = rotulos_escritos(ps);
    assert(e.subrange(0, r0.len() as int) =~= r0);
    assert(r0.len() == kl + vl + 3);
    assert forall|x: int| 0 <= x < e.len() implies #[trigger] s[i + x] == e[x] by {
        assert(s.subrange(i, s.len() as int)[x] == s[i + x]);
    }
    assert forall|j: int| 0 <= j < kl implies s[i + j] == k[j] by {
        assert(e[j] == r0[j]);
        assert(r0[j] == k[j]);
    }
    assert(s[i + kl] == '=') by {
        assert(e[kl] == r0[kl]);
    }
    assert(s[i + kl + 1] == '"') by {
        assert(e[kl + 1] == r0[kl + 1]);
    }
    assert forall|j: int| 0 <= j < vl implies s[i + kl + 2 + j] == v[j] by {
        assert(e[kl + 2 + j] == r0[kl + 2 + j]);
        assert(r0[kl + 2 + j] == v[j]);
    }
    assert(s[i + kl + 2 + vl] == '"') by {
        assert(e[kl + 2 + vl] == r0[kl + 2 + vl]);
    }
    assert forall|j: int| i <= j < i + kl implies s[j] != '=' by {
        assert(s[i + (j - i)] == k[j - i]);
    }
    assert forall|j: int| i + kl + 2 <= j < i + kl + 2 + vl implies s[j] != '"' by {
        assert(s[i + kl + 2 + (j - (i + kl + 2))] == v[j - (i + kl + 2)]);
    }
    lema_primeiro(s, i, i + kl, '=');
    lema_primeiro(s, i + kl + 2, i + kl + 2 + vl, '"');
    assert(s.subrange(i, i + kl) =~= k);
    lema_chave_limpa(k);
    assert(s.subrange(i + kl + 2, i + kl + 2 + vl) =~= v);
    let depois = i + kl + vl + 3;
    if ps.len() == 1 {
        assert(e == r0);
        assert(depois == s.len());
        assert(pares_desde(s, depois) =~= Seq::<(Seq<char>, Seq<char>)>::empty());
        assert(pares_desde(s, i) =~= seq![(k, v)]);
        assert(ps =~= seq![ps[0]]);
    } else {
        let resto = ps.drop_first();
        assert(e == r0 + seq![','] + rotulos_escritos(resto));
        assert(s[depois] == ',') by {
            assert(e[r0.len() as int] == ',');
        }
        assert(chave_boa(resto[0].0));
        assert(rotulos_escritos(resto).len() > 0) by {
            if resto.len() == 1 {
            } else {
            }
        }
        assert(rotulos_escritos(resto)[0] == resto[0].0[0]) by {
            if resto.len() == 1 {
                assert(rotulos_escritos(resto) == rotulo_escrito(resto[0]));
            } else {
                assert(rotulos_escritos(resto) == rotulo_escrito(resto[0]) + seq![','] + rotulos_escritos(
                    resto.drop_first(),
                ));
            }
        }
        assert(s[depois + 1] == resto[0].0[0]) by {
            assert(e[r0.len() + 1int] == rotulos_escritos(resto)[0]);
        }
        assert(pula_sep(s, depois + 1) == depois + 1);
        assert(pula_sep(s, depois) == depois + 1);
        assert(s.subrange(depois + 1, s.len() as int) =~= rotulos_escritos(resto)) by {
            assert(e.subrange(r0.len() + 1int, e.len() as int) =~= rotulos_escritos(resto));
        }
        assert forall|q: int| 0 <= q < resto.len() implies chave_boa(#[trigger] resto[q].0) && valor_bom(
            resto[q].1,
        ) by {
            assert(resto[q] == ps[q + 1]);
        }
        lema_rotulos_escritos(s, depois + 1, resto);
        assert(pares_desde(s, i) =~= seq![(k, v)] + resto);
        assert(ps =~= seq![ps[0]] + resto);
    }
}

/// Uma lista de rotulos escrita como `k1="v1",k2="v2",...`, com chaves nao
/// vazias sem `=`, virgula, aspas ou espaco e valores sem aspas, e lida de
/// volta exatamente: os mesmos pares, na mesma ordem.
pub proof fn lei_rotulos_escritos(ps: Seq<(Seq<char>, Seq<char>)>)
    requires
        forall|q: int| 0 <= q < ps.len() ==> chave_boa(#[trigger] ps[q].0) && valor_bom(ps[q].1),
    ensures
        pares_desde(rotulos_escritos(ps), 0) == ps,
{
    if ps.len() > 0 {
        let s = rotulos_escritos(ps);
        assert(s.subrange(0, s.len() as int) =~= s);
        lema_rotulos_escritos(s, 0, ps);
    } else {
        assert(ps =~= Seq::<(Seq<char>, Seq<char>)>::empty());
    }
}

fn limpa_chave_em(v: &Vec<char>, ini: usize, fim: usize) -> (r: Vec<char>)
    requires
        ini <= fim <= v.len(),
    ensures
        r@ == limpa_chave(v@.subrange(ini as int, fim as int)),
{
    let (a0, b) = texto::apara_em(v, ini, fim);
    let mut a = a0;
    while a < b && v[a] == ','
        invariant
            a0 <= a <= b <= v.len(),
            sem_virgula_ini(v@.subrange(a as int, b as int)) == sem_virgula_ini(
                v@.subrange(a0 as int, b as int),
            ),
        decreases b - a,
    {
        assert(v@.subrange(a as int, b as int).drop_first() =~= v@.subrange(a + 1, b as int));
        a = a + 1;
    }
    let (c, d) = texto::apara_em(v, a, b);
    texto::trecho(v, c, d)
}

/// Le a lista de rotulos de dentro das chaves: `a="1",b="2"`.
pub fn parse_labels(s: &str) -> (r: Rotulos)
    ensures
        r.vista() == pares_desde(s@, 0),
{
    let v = texto::chars_de(s);
    rotulos_de(&v)
}

fn rotulos_de(v: &Vec<char>) -> (r: Rotulos)
    ensures
        r.vista() == pares_desde(v@, 0),
{
    let mut m = Rotulos::novo();
    let mut i: usize = 0;
    assert(pares_desde(v@, 0) =~= m.vista() + pares_desde(v@, 0));
    while i < v.len()
        invariant
            i <= v.len(),
            pares_desde(v@, 0) == m.vista() + pares_desde(v@, i as int),
        ensures
            pares_desde(v@, 0) == m.vista(),
        decreases v.len() - i,
    {
        let ghost i0 = i as int;
        let eq = texto::acha_em(&v, i, '=');
        if eq >= v.len() || eq + 1 >= v.len() || v[eq + 1] != '"' {
            assert(pares_desde(v@, i as int) =~= Seq::<(Seq<char>, Seq<char>)>::empty());
            assert(m.vista() + pares_desde(v@, i as int) =~= m.vista());
            break;
        }
        let fim = texto::acha_em(&v, eq + 2, '"');
        let chave = limpa_chave_em(&v, i, eq);
        let valor = texto::trecho(&v, eq + 2, fim);
        let depois = if fim < v.len() {
            fim + 1
        } else {
            fim
        };
        let mut k = depois;
        proof {
            lema_pula_sep(v@, depois as int);
        }
        while k < v.len() && (v[k] == ',' || texto::eh_espaco(v[k]))
            invariant
                depois <= k <= v.len(),
                pula_sep(v@, k as int) == pula_sep(v@, depois as int),
            decreases v.len() - k,
        {
            k = k + 1;
        }
        let ghost antes = m.vista();
        if chave.len() > 0 {
            m.insere(texto::string_de(&chave), texto::string_de(&valor));
            assert(pares_desde(v@, i0) =~= seq![(chave@, valor@)] + pares_desde(v@, k as int));
        }
        i = k;
    }
    m
}

} // verus!

verus! {

/// Uma linha do formato texto do Prometheus: nome, rotulos e o valor ainda
/// como texto.
pub struct LinhaMetrica {
    pub nome: String,
    pub rotulos: Rotulos,
    pub valor: String,
}

impl LinhaMetrica {
    pub open spec fn vista(&self) -> (Seq<char>, Seq<(Seq<char>, Seq<char>)>, Seq<char>) {
        (self.nome@, self.rotulos.vista(), self.valor@)
    }
}

/// Posicao do ultimo espaco, ou -1.
pub open spec fn ultimo_espaco(t: Seq<char>) -> int
    decreases t.len(),
{
    if t.len() == 0 {
        -1
    } else if texto::espaco(t.last()) {
        t.len() - 1
    } else {
        ultimo_espaco(t.drop_last())
    }
}

pub proof fn lema_ultimo_espaco(t: Seq<char>)
    ensures
        -1 <= ultimo_espaco(t) < t.len(),
        ultimo_espaco(t) >= 0 ==> texto::espaco(t[ultimo_espaco(t)]),
        forall|j: int| ultimo_espaco(t) < j < t.len() ==> !texto::espaco(t[j]),
    decreases t.len(),
{
    if t.len() > 0 && !texto::espaco(t.last()) {
        let d = t.drop_last();
        lema_ultimo_espaco(d);
        assert forall|j: int| ultimo_espaco(t) < j < t.len() implies !texto::espaco(t[j]) by {
            if j < t.len() - 1 {
                assert(t[j] == d[j]);
            }
        }
        if ultimo_espaco(t) >= 0 {
            assert(t[ultimo_espaco(t)] == d[ultimo_espaco(t)]);
        }
    }
}

/// `strip_suffix('}')`, ou o proprio texto.
pub open spec fn sem_fecha_chave(s: Seq<char>) -> Seq<char> {
    if s.len() > 0 && s.last() == '}' {
        s.drop_last()
    } else {
        s
    }
}

/// Primeira posicao a partir de `i` com espaco, ou o fim.
pub open spec fn acha_espaco(s: Seq<char>, i: int) -> int
    decreases s.len() - i,
{
    if i < 0 || i >= s.len() {
        s.len() as int
    } else if texto::espaco(s[i]) {
        i
    } else {
        acha_espaco(s, i + 1)
    }
}

/// Primeira posicao a partir de `i` sem espaco, ou o fim.
pub open spec fn pula_espaco(s: Seq<char>, i: int) -> int
    decreases s.len() - i,
{
    if i < 0 || i >= s.len() {
        s.len() as int
    } else if !texto::espaco(s[i]) {
        i
    } else {
        pula_espaco(s, i + 1)
    }
}

pub proof fn lema_espacos(s: Seq<char>, i: int)
    requires
        0 <= i <= s.len(),
    ensures
        i <= acha_espaco(s, i) <= s.len(),
        i <= pula_espaco(s, i) <= s.len(),
    decreases s.len() - i,
{
    if i < s.len() {
        lema_espacos(s, i + 1);
    }
}

/// O primeiro pedaco sem espacos a partir de `i`: pulados os espacos, ate o
/// proximo espaco ou o fim.
pub open spec fn token_desde(s: Seq<char>, i: int) -> Seq<char> {
    let a = pula_espaco(s, i);
    s.subrange(a, acha_espaco(s, a))
}

/// Uma linha cujo bloco de rotulos nao fecha: o valor e o que vem depois do
/// ultimo espaco, e o resto e a cabeca.
pub open spec fn metrica_sem_fecho(t: Seq<char>) -> Option<
    (Seq<char>, Seq<(Seq<char>, Seq<char>)>, Seq<char>),
> {
    let k = ultimo_espaco(t);
    if k < 0 {
        None
    } else {
        let cab = texto::apara(t.subrange(0, k));
        let valor = texto::apara(t.subrange(k + 1, t.len() as int));
        let j = texto::acha(cab, 0, '{');
        if j < cab.len() {
            Some(
                (
                    cab.subrange(0, j),
                    pares_desde(sem_fecha_chave(cab.subrange(j + 1, cab.len() as int)), 0),
                    valor,
                ),
            )
        } else {
            Some((cab, Seq::empty(), valor))
        }
    }
}

/// O que uma linha do formato texto do Prometheus rende. Linha vazia ou de
/// comentario (`#`) nao rende nada. Uma amostra e `nome valor [tempo]` ou
/// `nome{rotulos} valor [tempo]`: o nome vai ate o primeiro espaco, ou ate a
/// chave que abre os rotulos, que vao ate a ultima chave que fecha, seguida
/// de espaco; o valor e o primeiro pedaco sem espacos depois disso, e o
/// carimbo de tempo que puder vir em seguida nao entra. Sem valor a linha nao
/// rende nada. Se o bloco de rotulos nao fecha, ou se nao ha espaco logo
/// depois dele, vale `metrica_sem_fecho`.
pub open spec fn metrica_da_linha(l: Seq<char>) -> Option<
    (Seq<char>, Seq<(Seq<char>, Seq<char>)>, Seq<char>),
> {
    let t = texto::apara(l);
    if t.len() == 0 || t[0] == '#' {
        None
    } else {
        let j = texto::acha(t, 0, '{');
        let q = texto::ultimo_de(t, '}');
        if j < t.len() && q > j && q + 1 < t.len() && texto::espaco(t[q + 1]) {
            let valor = token_desde(t, q + 1);
            if valor.len() == 0 {
                None
            } else {
                Some((t.subrange(0, j), pares_desde(t.subrange(j + 1, q), 0), valor))
            }
        } else if j < t.len() {
            metrica_sem_fecho(t)
        } else {
            let w = acha_espaco(t, 0);
            if w >= t.len() {
                None
            } else {
                Some((t.subrange(0, w), Seq::empty(), token_desde(t, w)))
            }
        }
    }
}

/// As metricas de um texto, linha a linha a partir da posicao `i`.
pub open spec fn metricas_desde(s: Seq<char>, i: int) -> Seq<
    (Seq<char>, Seq<(Seq<char>, Seq<char>)>, Seq<char>),
>
    decreases s.len() - i,
{
    if i < 0 || i >= s.len() {
        Seq::empty()
    } else {
        let nl = texto::acha(s, i, '\n');
        proof {
            texto::lema_acha(s, i, '\n');
        }
        let resto = if nl < s.len() {
            metricas_desde(s, nl + 1)
        } else {
            Seq::empty()
        };
        match metrica_da_linha(s.subrange(i, nl)) {
            Some(m) => seq![m] + resto,
            None => resto,
        }
    }
}

fn ultimo_espaco_em(t: &Vec<char>) -> (r: Option<usize>)
    ensures
        match r {
            Some(k) => k == ultimo_espaco(t@) && k < t.len(),
            None => ultimo_espaco(t@) == -1,
        },
{
    proof {
        lema_ultimo_espaco(t@);
    }
    let mut j = t.len();
    while j > 0
        invariant
            j <= t.len(),
            forall|k: int| j <= k < t.len() ==> !texto::espaco(t@[k]),
        decreases j,
    {
        if texto::eh_espaco(t[j - 1]) {
            proof {
                lema_ultimo_espaco(t@);
                if ultimo_espaco(t@) > j - 1 {
                    assert(texto::espaco(t@[ultimo_espaco(t@)]));
                }
            }
            return Some(j - 1);
        }
        j = j - 1;
    }
    proof {
        if ultimo_espaco(t@) >= 0 {
            assert(texto::espaco(t@[ultimo_espaco(t@)]));
        }
    }
    None
}

fn acha_espaco_em(v: &Vec<char>, i: usize) -> (r: usize)
    requires
        i <= v.len(),
    ensures
        r == acha_espaco(v@, i as int),
        i <= r <= v.len(),
{
    let mut j = i;
    while j < v.len() && !texto::eh_espaco(v[j])
        invariant
            i <= j <= v.len(),
            acha_espaco(v@, j as int) == acha_espaco(v@, i as int),
        decreases v.len() - j,
    {
        j = j + 1;
    }
    j
}

fn pula_espaco_em(v: &Vec<char>, i: usize) -> (r: usize)
    requires
        i <= v.len(),
    ensures
        r == pula_espaco(v@, i as int),
        i <= r <= v.len(),
{
    let mut j = i;
    while j < v.len() && texto::eh_espaco(v[j])
        invariant
            i <= j <= v.len(),
            pula_espaco(v@, j as int) == pula_espaco(v@, i as int),
        decreases v.len() - j,
    {
        j = j + 1;
    }
    j
}

fn token_em(v: &Vec<char>, i: usize) -> (r: Vec<char>)
    requires
        i <= v.len(),
    ensures
        r@ == token_desde(v@, i as int),
{
    let a = pula_espaco_em(v, i);
    let b = acha_espaco_em(v, a);
    texto::trecho(v, a, b)
}

fn metrica_sem_fecho_em(t: &Vec<char>) -> (r: Option<LinhaMetrica>)
    ensures
        match r {
            Some(m) => metrica_sem_fecho(t@) == Some(m.vista()),
            None => metrica_sem_fecho(t@) is None,
        },
{
    let k = match ultimo_espaco_em(t) {
        Some(k) => k,
        None => {
            return None;
        },
    };
    let (ca, cb) = texto::apara_em(t, 0, k);
    let cab = texto::trecho(t, ca, cb);
    let (va, vb) = texto::apara_em(t, k + 1, t.len());
    let valor = texto::trecho(t, va, vb);
    let j = texto::acha_em(&cab, 0, '{');
    if j < cab.len() {
        let mut resto = texto::trecho(&cab, j + 1, cab.len());
        if resto.len() > 0 && resto[resto.len() - 1] == '}' {
            resto.pop();
        }
        let rot = rotulos_de(&resto);
        let nome = texto::trecho(&cab, 0, j);
        Some(
            LinhaMetrica {
                nome: texto::string_de(&nome),
                rotulos: rot,
                valor: texto::string_de(&valor),
            },
        )
    } else {
        Some(
            LinhaMetrica {
                nome: texto::string_de(&cab),
                rotulos: Rotulos::novo(),
                valor: texto::string_de(&valor),
            },
        )
    }
}

fn metrica_da_linha_em(l: &Vec<char>) -> (r: Option<LinhaMetrica>)
    ensures
        match r {
            Some(m) => metrica_da_linha(l@) == Some(m.vista()),
            None => metrica_da_linha(l@) is None,
        },
{
    let (a, b) = texto::apara_em(l, 0, l.len());
    assert(l@.subrange(0, l.len() as int) =~= l@);
    let t = texto::trecho(l, a, b);
    if t.len() == 0 || t[0] == '#' {
        return None;
    }
    let j = texto::acha_em(&t, 0, '{');
    if j < t.len() {
        if let Some(q) = texto::ultimo_de_em(&t, '}') {
            if q > j && q + 1 < t.len() && texto::eh_espaco(t[q + 1]) {
                let valor = token_em(&t, q + 1);
                if valor.len() == 0 {
                    return None;
                }
                let dentro = texto::trecho(&t, j + 1, q);
                let rot = rotulos_de(&dentro);
                let nome = texto::trecho(&t, 0, j);
                return Some(
                    LinhaMetrica {
                        nome: texto::string_de(&nome),
                        rotulos: rot,
                        valor: texto::string_de(&valor),
                    },
                );
            }
        }
        return metrica_sem_fecho_em(&t);
    }
    let w = acha_espaco_em(&t, 0);
    if w >= t.len() {
        return None;
    }
    let valor = token_em(&t, w);
    let nome = texto::trecho(&t, 0, w);
    Some(
        LinhaMetrica {
            nome: texto::string_de(&nome),
            rotulos: Rotulos::novo(),
            valor: texto::string_de(&valor),
        },
    )
}

/// As linhas de metrica de um texto no formato do Prometheus, na ordem.
/// Converter o valor em numero fica com quem chama.
pub fn parse_metrics(texto_bruto: &str) -> (r: Vec<LinhaMetrica>)
    ensures
        r@.map_values(|m: LinhaMetrica| m.vista()) == metricas_desde(texto_bruto@, 0),
{
    let v = texto::chars_de(texto_bruto);
    let mut saida: Vec<LinhaMetrica> = Vec::new();
    let mut i: usize = 0;
    assert(saida@.map_values(|m: LinhaMetrica| m.vista()) =~= Seq::<
        (Seq<char>, Seq<(Seq<char>, Seq<char>)>, Seq<char>),
    >::empty());
    while i < v.len()
        invariant
            i <= v.len(),
            v@ == texto_bruto@,
            metricas_desde(v@, 0) == saida@.map_values(|m: LinhaMetrica| m.vista())
                + metricas_desde(v@, i as int),
        decreases v.len() - i,
    {
        let nl = texto::acha_em(&v, i, '\n');
        let linha = texto::trecho(&v, i, nl);
        let ghost antes = saida@.map_values(|m: LinhaMetrica| m.vista());
        match metrica_da_linha_em(&linha) {
            Some(m) => {
                saida.push(m);
                assert(saida@.map_values(|m: LinhaMetrica| m.vista()) =~= antes.push(
                    metrica_da_linha(linha@).unwrap(),
                ));
            },
            None => {},
        }
        i = if nl < v.len() {
            nl + 1
        } else {
            v.len()
        };
    }
    proof {
        assert(metricas_desde(v@, i as int) =~= Seq::<
            (Seq<char>, Seq<(Seq<char>, Seq<char>)>, Seq<char>),
        >::empty());
    }
    saida
}

proof fn lema_acha_espaco_ate(s: Seq<char>, i: int, k: int)
    requires
        0 <= i <= k <= s.len(),
        forall|m: int| i <= m < k ==> !texto::espaco(#[trigger] s[m]),
        k == s.len() || texto::espaco(s[k]),
    ensures
        acha_espaco(s, i) == k,
    decreases k - i,
{
    if i < k {
        lema_acha_espaco_ate(s, i + 1, k);
    }
}

proof fn lema_apara_intacto(s: Seq<char>)
    requires
        s.len() > 0,
        !texto::espaco(s[0]),
        !texto::espaco(s.last()),
    ensures
        texto::apara(s) == s,
{
    assert(texto::sem_espaco_ini(s) == s);
}

pub proof fn lema_ultimo_de_em(s: Seq<char>, c: char, k: int)
    requires
        0 <= k < s.len(),
        s[k] == c,
        forall|m: int| k < m < s.len() ==> #[trigger] s[m] != c,
    ensures
        texto::ultimo_de(s, c) == k,
    decreases s.len(),
{
    if k < s.len() - 1 {
        let d = s.drop_last();
        assert forall|m: int| k < m < d.len() implies #[trigger] d[m] != c by {
            assert(d[m] == s[m]);
        }
        lema_ultimo_de_em(d, c, k);
    }
}

/// Uma linha sem quebra e sem espaco nas pontas e uma linha so, ja aparada.
proof fn lema_linha_unica(t: Seq<char>)
    requires
        t.len() > 0,
        !texto::espaco(t[0]),
        !texto::espaco(t.last()),
        forall|m: int| 0 <= m < t.len() ==> #[trigger] t[m] != '\n',
    ensures
        metricas_desde(t, 0) == match metrica_da_linha(t) {
            Some(m) => seq![m],
            None => Seq::empty(),
        },
        texto::apara(t) == t,
{
    texto::lema_acha(t, 0, '\n');
    if texto::acha(t, 0, '\n') < t.len() {
        assert(t[texto::acha(t, 0, '\n')] == '\n');
    }
    assert(t.subrange(0, t.len() as int) =~= t);
    lema_apara_intacto(t);
    match metrica_da_linha(t) {
        Some(m) => {
            assert(seq![m] + Seq::empty() =~= seq![m]);
        },
        None => {},
    }
}

/// Uma amostra com rotulos, `nome{rotulos} valor`, seguida ou nao de
/// carimbo de tempo, rende uma metrica so: o nome, os rotulos lidos de
/// dentro das chaves e o valor inteiro, nunca o carimbo.
pub proof fn lei_amostra_com_rotulos(
    n: Seq<char>,
    r: Seq<char>,
    sep: char,
    v: Seq<char>,
    resto: Seq<char>,
)
    requires
        n.len() > 0,
        n[0] != '#',
        forall|i: int| 0 <= i < n.len() ==> !texto::espaco(#[trigger] n[i]) && n[i] != '{',
        forall|i: int| 0 <= i < r.len() ==> #[trigger] r[i] != '\n',
        texto::espaco(sep),
        sep != '\n',
        v.len() > 0,
        forall|i: int| 0 <= i < v.len() ==> !texto::espaco(#[trigger] v[i]) && v[i] != '}',
        forall|i: int| 0 <= i < resto.len() ==> #[trigger] resto[i] != '\n' && resto[i] != '}',
        resto.len() > 0 ==> texto::espaco(resto[0]) && !texto::espaco(resto.last()),
    ensures
        metricas_desde(n + seq!['{'] + r + seq!['}', sep] + v + resto, 0) == seq![
            (n, pares_desde(r, 0), v),
        ],
{
    let t = n + seq!['{'] + r + seq!['}', sep] + v + resto;
    let nn = n.len() as int;
    let c = nn + 1 + r.len();
    let fv = c + 2 + v.len();
    let l = t.len() as int;
    assert forall|m: int| 0 <= m < nn implies #[trigger] t[m] == n[m] by {}
    assert(t[nn] == '{');
    assert forall|m: int| nn < m < c implies #[trigger] t[m] == r[m - nn - 1] by {}
    assert(t[c] == '}');
    assert(t[c + 1] == sep);
    assert forall|m: int| c + 2 <= m < fv implies #[trigger] t[m] == v[m - c - 2] by {}
    assert forall|m: int| fv <= m < l implies #[trigger] t[m] == resto[m - fv] by {}
    assert forall|m: int| 0 <= m < l implies #[trigger] t[m] != '\n' by {
        if m < nn {
            assert(t[m] == n[m]);
        } else if nn < m < c {
            assert(t[m] == r[m - nn - 1]);
        } else if c + 2 <= m < fv {
            assert(t[m] == v[m - c - 2]);
        } else if fv <= m {
            assert(t[m] == resto[m - fv]);
        }
    }
    assert(t[0] == n[0]);
    if resto.len() > 0 {
        assert(t.last() == resto.last());
    } else {
        assert(t.last() == v.last());
    }
    lema_linha_unica(t);
    // a chave que abre
    texto::lema_acha(t, 0, '{');
    if texto::acha(t, 0, '{') < nn {
        assert(t[texto::acha(t, 0, '{')] == n[texto::acha(t, 0, '{')]);
    }
    assert(texto::acha(t, 0, '{') == nn);
    // a ultima chave que fecha
    assert forall|m: int| c < m < l implies #[trigger] t[m] != '}' by {
        if c + 2 <= m < fv {
            assert(t[m] == v[m - c - 2]);
        } else if fv <= m {
            assert(t[m] == resto[m - fv]);
        }
    }
    lema_ultimo_de_em(t, '}', c);
    // o valor
    assert forall|m: int| c + 2 <= m < fv implies !texto::espaco(#[trigger] t[m]) by {
        assert(t[m] == v[m - c - 2]);
    }
    assert(pula_espaco(t, c + 2) == c + 2);
    assert(pula_espaco(t, c + 1) == c + 2);
    if fv < l {
        assert(t[fv] == resto[0]);
    }
    lema_acha_espaco_ate(t, c + 2, fv);
    assert(token_desde(t, c + 1) =~= v);
    assert(t.subrange(0, nn) =~= n);
    assert(t.subrange(nn + 1, c) =~= r);
}

/// Uma amostra sem rotulos seguida de carimbo de tempo, `nome valor tempo`,
/// rende uma metrica so com o valor, nunca o carimbo.
pub proof fn lei_amostra_com_carimbo(n: Seq<char>, sep: char, v: Seq<char>, resto: Seq<char>)
    requires
        n.len() > 0,
        n[0] != '#',
        forall|i: int| 0 <= i < n.len() ==> !texto::espaco(#[trigger] n[i]) && n[i] != '{',
        texto::espaco(sep),
        sep != '\n',
        v.len() > 0,
        forall|i: int| 0 <= i < v.len() ==> !texto::espaco(#[trigger] v[i]) && v[i] != '{',
        forall|i: int| 0 <= i < resto.len() ==> #[trigger] resto[i] != '\n' && resto[i] != '{',
        resto.len() > 0 ==> texto::espaco(resto[0]) && !texto::espaco(resto.last()),
    ensures
        metricas_desde(n + seq![sep] + v + resto, 0) == seq![
            (n, Seq::<(Seq<char>, Seq<char>)>::empty(), v),
        ],
{
    let t = n + seq![sep] + v + resto;
    let nn = n.len() as int;
    let fv = nn + 1 + v.len();
    let l = t.len() as int;
    assert forall|m: int| 0 <= m < nn implies #[trigger] t[m] == n[m] by {}
    assert(t[nn] == sep);
    assert forall|m: int| nn < m < fv implies #[trigger] t[m] == v[m - nn - 1] by {}
    assert forall|m: int| fv <= m < l implies #[trigger] t[m] == resto[m - fv] by {}
    assert forall|m: int| 0 <= m < l implies #[trigger] t[m] != '\n' && t[m] != '{' by {
        if m < nn {
            assert(t[m] == n[m]);
        } else if nn < m < fv {
            assert(t[m] == v[m - nn - 1]);
        } else if fv <= m {
            assert(t[m] == resto[m - fv]);
        }
    }
    assert(t[0] == n[0]);
    if resto.len() > 0 {
        assert(t.last() == resto.last());
    } else {
        assert(t.last() == v.last());
    }
    lema_linha_unica(t);
    texto::lema_acha(t, 0, '{');
    if texto::acha(t, 0, '{') < l {
        assert(t[texto::acha(t, 0, '{')] == '{');
    }
    assert forall|m: int| 0 <= m < nn implies !texto::espaco(#[trigger] t[m]) by {
        assert(t[m] == n[m]);
    }
    lema_acha_espaco_ate(t, 0, nn);
    assert forall|m: int| nn < m < fv implies !texto::espaco(#[trigger] t[m]) by {
        assert(t[m] == v[m - nn - 1]);
    }
    assert(pula_espaco(t, nn + 1) == nn + 1);
    assert(pula_espaco(t, nn) == nn + 1);
    if fv < l {
        assert(t[fv] == resto[0]);
    }
    lema_acha_espaco_ate(t, nn + 1, fv);
    assert(token_desde(t, nn) =~= v);
    assert(t.subrange(0, nn) =~= n);
}

proof fn lema_acha_desloc(p: Seq<char>, b: Seq<char>, i: int, c: char)
    requires
        0 <= i <= b.len(),
    ensures
        texto::acha(p + b, p.len() + i, c) == p.len() + texto::acha(b, i, c),
    decreases b.len() - i,
{
    if i < b.len() {
        assert((p + b)[p.len() + i] == b[i]);
        lema_acha_desloc(p, b, i + 1, c);
    }
}

proof fn lema_metricas_desloc(p: Seq<char>, b: Seq<char>, i: int)
    requires
        0 <= i <= b.len(),
    ensures
        metricas_desde(p + b, p.len() + i) == metricas_desde(b, i),
    decreases b.len() - i,
{
    if i < b.len() {
        let s = p + b;
        let k = p.len() + i;
        lema_acha_desloc(p, b, i, '\n');
        texto::lema_acha(b, i, '\n');
        let nl = texto::acha(b, i, '\n');
        assert(s.subrange(k, p.len() + nl) =~= b.subrange(i, nl));
        if nl < b.len() {
            lema_metricas_desloc(p, b, nl + 1);
        }
    }
}

/// As linhas sao lidas uma a uma: o que um texto rende e o que rende a sua
/// primeira linha seguido do que rende o resto depois da quebra.
pub proof fn lei_linhas_independentes(a: Seq<char>, b: Seq<char>)
    requires
        forall|i: int| 0 <= i < a.len() ==> #[trigger] a[i] != '\n',
    ensures
        metricas_desde(a + seq!['\n'] + b, 0) == metricas_desde(a, 0) + metricas_desde(b, 0),
{
    let p = a + seq!['\n'];
    let s = p + b;
    assert(a + seq!['\n'] + b == s);
    texto::lema_acha(s, 0, '\n');
    texto::lema_acha(a, 0, '\n');
    if texto::acha(s, 0, '\n') < a.len() {
        assert(s[texto::acha(s, 0, '\n')] == a[texto::acha(s, 0, '\n')]);
    }
    if texto::acha(a, 0, '\n') < a.len() {
        assert(a[texto::acha(a, 0, '\n')] == '\n');
    }
    assert(s[a.len() as int] == '\n');
    assert(texto::acha(s, 0, '\n') == a.len());
    assert(s.subrange(0, a.len() as int) =~= a);
    lema_metricas_desloc(p, b, 0);
    assert(p.len() + 0 == a.len() + 1);
    if a.len() > 0 {
        assert(a.subrange(0, a.len() as int) =~= a);
        match metrica_da_linha(a) {
            Some(m) => {
                assert(seq![m] + Seq::empty() =~= seq![m]);
                assert(seq![m] + metricas_desde(b, 0) =~= seq![m] + Seq::empty() + metricas_desde(
                    b,
                    0,
                ));
            },
            None => {
                assert(Seq::empty() + metricas_desde(b, 0) =~= metricas_desde(b, 0));
            },
        }
    } else {
        assert(metrica_da_linha(a) is None);
        assert(Seq::empty() + metricas_desde(b, 0) =~= metricas_desde(b, 0));
    }
}

/// Uma amostra sem rotulos, `nome valor`, rende uma metrica so, com o nome e
/// o valor inteiros: o valor e todo o pedaco sem espacos depois do nome,
/// sejam quais forem os seus caracteres (sinal, ponto, `e`, `+`, chaves).
pub proof fn lei_amostra_sem_rotulos(n: Seq<char>, sep: char, v: Seq<char>)
    requires
        n.len() > 0,
        n[0] != '#',
        forall|i: int| 0 <= i < n.len() ==> !texto::espaco(#[trigger] n[i]) && n[i] != '{',
        texto::espaco(sep),
        sep != '\n',
        v.len() > 0,
        forall|i: int| 0 <= i < v.len() ==> !texto::espaco(#[trigger] v[i]),
    ensures
        metricas_desde(n + seq![sep] + v, 0) == seq![
            (n, Seq::<(Seq<char>, Seq<char>)>::empty(), v),
        ],
{
    let t = n + seq![sep] + v;
    let nn = n.len() as int;
    let l = t.len() as int;
    assert forall|m: int| 0 <= m < nn implies t[m] == n[m] && !texto::espaco(#[trigger] t[m]) && t[m]
        != '{' by {
        assert(t[m] == n[m]);
    }
    assert(t[nn] == sep);
    assert forall|m: int| nn < m < l implies t[m] == v[m - nn - 1] && !texto::espaco(
        #[trigger] t[m],
    ) by {
        assert(t[m] == v[m - nn - 1]);
    }
    // uma linha so
    texto::lema_acha(t, 0, '\n');
    if texto::acha(t, 0, '\n') < l {
        let k = texto::acha(t, 0, '\n');
        assert(t[k] == '\n');
        assert(texto::espaco('\n'));
        assert(false);
    }
    assert(t.subrange(0, l) =~= t);
    assert(texto::acha(t, 0, '\n') == l);
    assert(metricas_desde(t, 0) == (match metrica_da_linha(t) {
        Some(m) => seq![m] + Seq::empty(),
        None => Seq::empty(),
    }));
    // a linha ja vem aparada
    assert(t.last() == v.last());
    lema_apara_intacto(t);
    assert(t.subrange(0, nn) =~= n);
    assert(t.subrange(nn + 1, l) =~= v);
    let esperado = (n, Seq::<(Seq<char>, Seq<char>)>::empty(), v);
    let j = texto::acha(t, 0, '{');
    texto::lema_acha(t, 0, '{');
    if j < l {
        // a chave esta no valor: nao ha bloco de rotulos seguido de espaco
        assert(j > nn);
        let q = texto::ultimo_de(t, '}');
        if q > j && q + 1 < l {
            assert(!texto::espaco(t[q + 1]));
        }
        lema_ultimo_espaco(t);
        let k = ultimo_espaco(t);
        if k < nn {
            assert(texto::espaco(t[nn]));
        }
        if k > nn {
            assert(texto::espaco(t[k]));
        }
        assert(k == nn);
        assert(n.last() == t[nn - 1]);
        lema_apara_intacto(n);
        assert(v.last() == t[l - 1]);
        lema_apara_intacto(v);
        texto::lema_acha(n, 0, '{');
        if texto::acha(n, 0, '{') < nn {
            assert(n[texto::acha(n, 0, '{')] == '{');
        }
        assert(metrica_sem_fecho(t) == Some(esperado));
        assert(metrica_da_linha(t) == Some(esperado));
    } else {
        lema_acha_espaco_ate(t, 0, nn);
        assert(pula_espaco(t, nn + 1) == nn + 1);
        assert(pula_espaco(t, nn) == nn + 1);
        lema_acha_espaco_ate(t, nn + 1, l);
        assert(token_desde(t, nn) =~= v);
        assert(metrica_da_linha(t) == Some(esperado));
    }
    assert(seq![esperado] + Seq::empty() =~= seq![esperado]);
}

} // verus!

verus! {

/// Letra ou digito ASCII.
pub open spec fn alfanum(c: char) -> bool {
    let u = c as u32;
    (48 <= u <= 57) || (65 <= u <= 90) || (97 <= u <= 122)
}

/// Digito ASCII.
pub open spec fn digito_ascii(c: char) -> bool {
    let u = c as u32;
    48 <= u <= 57
}

/// Id de task ou de no do Swarm: pelo menos 20 caracteres, so letras e
/// digitos ASCII.
pub open spec fn id_valido(s: Seq<char>) -> bool {
    s.len() >= 20 && forall|i: int| 0 <= i < s.len() ==> alfanum(#[trigger] s[i])
}

/// Numero de replica: nao vazio, so digitos.
pub open spec fn so_digitos(s: Seq<char>) -> bool {
    s.len() > 0 && forall|i: int| 0 <= i < s.len() ==> digito_ascii(#[trigger] s[i])
}

/// Nome de task do Swarm, `<stack>_<servico>.<slot>.<idtask>`, em
/// (nome curto, stack, servico, e task). O slot e o numero da replica, ou o
/// id do no em servico global, quando o nome curto ganha `*`. Qualquer outro
/// nome volta intacto, com stack e servico vazios.
pub open spec fn nome_curto_spec(n: Seq<char>) -> (Seq<char>, Seq<char>, Seq<char>, bool) {
    let simples = (n, Seq::<char>::empty(), Seq::<char>::empty(), false);
    let p1 = texto::acha(n, 0, '.');
    let p2 = texto::acha(n, p1 + 1, '.');
    if p1 >= n.len() || p2 >= n.len() || texto::acha(n, p2 + 1, '.') < n.len() {
        simples
    } else {
        let cabeca = n.subrange(0, p1);
        let slot = n.subrange(p1 + 1, p2);
        let tarefa = n.subrange(p2 + 1, n.len() as int);
        let u = texto::acha(cabeca, 0, '_');
        let stack = cabeca.subrange(0, u);
        let svc = cabeca.subrange(u + 1, cabeca.len() as int);
        if !id_valido(tarefa) || (!so_digitos(slot) && !id_valido(slot)) {
            simples
        } else if u >= cabeca.len() || stack.len() == 0 || svc.len() == 0 {
            simples
        } else {
            let marca = if so_digitos(slot) {
                Seq::<char>::empty()
            } else {
                seq!['*']
            };
            (stack + seq!['/'] + svc + marca, stack, svc, true)
        }
    }
}

/// Um nome curto sempre vem de uma task reconhecida, como `stack/servico`
/// (com `*` em servico global); qualquer outro nome volta intacto, sem
/// stack nem servico.
pub proof fn lei_nome_curto(n: Seq<char>)
    ensures
        nome_curto_spec(n).3 ==> {
            let r = nome_curto_spec(n);
            &&& r.1.len() > 0 && r.2.len() > 0
            &&& (r.0 == r.1 + seq!['/'] + r.2 || r.0 == r.1 + seq!['/'] + r.2 + seq!['*'])
        },
        !nome_curto_spec(n).3 ==> nome_curto_spec(n) == (n, Seq::<char>::empty(), Seq::<char>::empty(), false),
{
}

proof fn lema_acha_ate(s: Seq<char>, i: int, k: int, c: char)
    requires
        0 <= i <= k <= s.len(),
        forall|m: int| i <= m < k ==> #[trigger] s[m] != c,
        k == s.len() || s[k] == c,
    ensures
        texto::acha(s, i, c) == k,
    decreases k - i,
{
    if i < k {
        lema_acha_ate(s, i + 1, k, c);
    }
}

/// O nome de uma task do Swarm, `<stack>_<servico>.<slot>.<id>`, encurta
/// para `stack/servico`: a stack vai ate o primeiro `_`, o servico e o resto
/// da cabeca, e o nome ganha `*` quando o slot e um id de no em vez do
/// numero da replica.
pub proof fn lei_nome_de_task(stack: Seq<char>, svc: Seq<char>, slot: Seq<char>, id: Seq<char>)
    requires
        stack.len() > 0,
        forall|i: int| 0 <= i < stack.len() ==> #[trigger] stack[i] != '_' && stack[i] != '.',
        svc.len() > 0,
        forall|i: int| 0 <= i < svc.len() ==> #[trigger] svc[i] != '.',
        slot.len() > 0,
        (forall|i: int| 0 <= i < slot.len() ==> digito_ascii(#[trigger] slot[i])) || (slot.len() >= 20
            && forall|i: int| 0 <= i < slot.len() ==> alfanum(#[trigger] slot[i])),
        id.len() >= 20,
        forall|i: int| 0 <= i < id.len() ==> alfanum(#[trigger] id[i]),
    ensures
        nome_curto_spec(stack + seq!['_'] + svc + seq!['.'] + slot + seq!['.'] + id) == (
            stack + seq!['/'] + svc + if forall|i: int| 0 <= i < slot.len() ==> digito_ascii(#[trigger] slot[i]) {
                Seq::<char>::empty()
            } else {
                seq!['*']
            },
            stack,
            svc,
            true,
        ),
{
    let cab = stack + seq!['_'] + svc;
    let n = cab + seq!['.'] + slot + seq!['.'] + id;
    assert(stack + seq!['_'] + svc + seq!['.'] + slot + seq!['.'] + id == n);
    let p1 = cab.len() as int;
    let p2 = p1 + 1 + slot.len();
    assert forall|m: int| 0 <= m < p1 implies #[trigger] n[m] != '.' by {
        assert(n[m] == cab[m]);
        if m < stack.len() {
            assert(cab[m] == stack[m]);
        } else if m > stack.len() {
            assert(cab[m] == svc[m - stack.len() - 1]);
        }
    }
    assert(n[p1] == '.');
    lema_acha_ate(n, 0, p1, '.');
    assert forall|m: int| p1 + 1 <= m < p2 implies #[trigger] n[m] != '.' by {
        assert(n[m] == slot[m - p1 - 1]);
    }
    assert(n[p2] == '.');
    lema_acha_ate(n, p1 + 1, p2, '.');
    assert forall|m: int| p2 + 1 <= m < n.len() implies #[trigger] n[m] != '.' by {
        assert(n[m] == id[m - p2 - 1]);
        assert(alfanum(id[m - p2 - 1]));
    }
    lema_acha_ate(n, p2 + 1, n.len() as int, '.');
    assert(n.subrange(0, p1) =~= cab);
    assert(n.subrange(p1 + 1, p2) =~= slot);
    assert(n.subrange(p2 + 1, n.len() as int) =~= id);
    assert forall|m: int| 0 <= m < stack.len() implies #[trigger] cab[m] != '_' by {
        assert(cab[m] == stack[m]);
    }
    assert(cab[stack.len() as int] == '_');
    lema_acha_ate(cab, 0, stack.len() as int, '_');
    assert(cab.subrange(0, stack.len() as int) =~= stack);
    assert(cab.subrange(stack.len() as int + 1, cab.len() as int) =~= svc);
    if !(forall|i: int| 0 <= i < slot.len() ==> digito_ascii(#[trigger] slot[i])) {
        assert(!so_digitos(slot));
        assert(id_valido(slot));
    } else {
        assert(so_digitos(slot));
    }
    assert(id_valido(id));
}

fn eh_alfanum(c: char) -> (r: bool)
    ensures
        r == alfanum(c),
{
    let u = c as u32;
    (48 <= u && u <= 57) || (65 <= u && u <= 90) || (97 <= u && u <= 122)
}

fn todos(v: &Vec<char>, a: usize, b: usize, so_num: bool) -> (r: bool)
    requires
        a <= b <= v.len(),
    ensures
        r == (forall|i: int|
            a <= i < b ==> (if so_num {
                digito_ascii(#[trigger] v@[i])
            } else {
                alfanum(v@[i])
            })),
{
    let mut k = a;
    while k < b
        invariant
            a <= k <= b <= v.len(),
            forall|i: int|
                a <= i < k ==> (if so_num {
                    digito_ascii(#[trigger] v@[i])
                } else {
                    alfanum(v@[i])
                }),
        decreases b - k,
    {
        let c = v[k];
        let u = c as u32;
        let ok = if so_num {
            48 <= u && u <= 57
        } else {
            eh_alfanum(c)
        };
        if !ok {
            return false;
        }
        k = k + 1;
    }
    true
}

/// Separa o nome de um container de Swarm; ver `nome_curto_spec`.
pub fn nome_curto(nome: &str) -> (r: (String, String, String, bool))
    ensures
        (r.0@, r.1@, r.2@, r.3) == nome_curto_spec(nome@),
{
    let n = texto::chars_de(nome);
    let simples = (texto::string_de(&n), String::new(), String::new(), false);
    let p1 = texto::acha_em(&n, 0, '.');
    if p1 >= n.len() {
        return simples;
    }
    let p2 = texto::acha_em(&n, p1 + 1, '.');
    if p2 >= n.len() {
        return simples;
    }
    let p3 = texto::acha_em(&n, p2 + 1, '.');
    if p3 < n.len() {
        return simples;
    }
    let ghost cabeca = n@.subrange(0, p1 as int);
    let ghost slot = n@.subrange(p1 + 1, p2 as int);
    let ghost tarefa = n@.subrange(p2 + 1, n.len() as int);
    let tarefa_ok = n.len() - (p2 + 1) >= 20 && todos(&n, p2 + 1, n.len(), false);
    assert(tarefa_ok == id_valido(tarefa)) by {
        if id_valido(tarefa) {
            assert forall|i: int| p2 + 1 <= i < n.len() implies alfanum(#[trigger] n@[i]) by {
                assert(n@[i] == tarefa[i - p2 - 1]);
            }
        }
        if tarefa_ok {
            assert forall|i: int| 0 <= i < tarefa.len() implies alfanum(#[trigger] tarefa[i]) by {
                assert(tarefa[i] == n@[i + p2 + 1]);
            }
        }
    }
    if !tarefa_ok {
        return simples;
    }
    let slot_num = p2 > p1 + 1 && todos(&n, p1 + 1, p2, true);
    assert(slot_num == so_digitos(slot)) by {
        if so_digitos(slot) {
            assert forall|i: int| p1 + 1 <= i < p2 implies digito_ascii(#[trigger] n@[i]) by {
                assert(n@[i] == slot[i - p1 - 1]);
            }
        }
        if slot_num {
            assert forall|i: int| 0 <= i < slot.len() implies digito_ascii(#[trigger] slot[i]) by {
                assert(slot[i] == n@[i + p1 + 1]);
            }
        }
    }
    let slot_id = p2 - (p1 + 1) >= 20 && todos(&n, p1 + 1, p2, false);
    assert(slot_id == id_valido(slot)) by {
        if id_valido(slot) {
            assert forall|i: int| p1 + 1 <= i < p2 implies alfanum(#[trigger] n@[i]) by {
                assert(n@[i] == slot[i - p1 - 1]);
            }
        }
        if slot_id {
            assert forall|i: int| 0 <= i < slot.len() implies alfanum(#[trigger] slot[i]) by {
                assert(slot[i] == n@[i + p1 + 1]);
            }
        }
    }
    if !slot_num && !slot_id {
        return simples;
    }
    let cab = texto::trecho(&n, 0, p1);
    let u = texto::acha_em(&cab, 0, '_');
    if u >= cab.len() || u == 0 || u + 1 == cab.len() {
        return simples;
    }
    let stack = texto::trecho(&cab, 0, u);
    let svc = texto::trecho(&cab, u + 1, cab.len());
    let mut curto = texto::trecho(&cab, 0, u);
    curto.push('/');
    texto::junta(&mut curto, &svc);
    if !slot_num {
        curto.push('*');
    }
    proof {
        let marca = if so_digitos(slot) {
            Seq::<char>::empty()
        } else {
            seq!['*']
        };
        assert(curto@ =~= stack@ + seq!['/'] + svc@ + marca);
    }
    (texto::string_de(&curto), texto::string_de(&stack), texto::string_de(&svc), true)
}

} // verus!

verus! {

/// Interfaces que nao contam no trafego: loopback, docker, veth, pontes e a
/// propria tailnet.
pub open spec fn ignora_net_spec(dev: Seq<char>) -> bool {
    ||| texto::comeca(dev, "lo"@)
    ||| texto::comeca(dev, "docker"@)
    ||| texto::comeca(dev, "veth"@)
    ||| texto::comeca(dev, "br-"@)
    ||| texto::comeca(dev, "tailscale"@)
}

/// Dispositivos que nao contam no I/O de disco: loop, ram, device-mapper e
/// leitor optico.
pub open spec fn ignora_disco_spec(dev: Seq<char>) -> bool {
    ||| texto::comeca(dev, "loop"@)
    ||| texto::comeca(dev, "ram"@)
    ||| texto::comeca(dev, "dm-"@)
    ||| texto::comeca(dev, "sr"@)
}

/// Ficam de fora do trafego exatamente as interfaces cujo nome comeca com
/// `lo`, `docker`, `veth`, `br-` ou `tailscale`; toda outra conta.
pub proof fn lei_interfaces_ignoradas(dev: Seq<char>)
    ensures
        ignora_net_spec(dev) <==> (dev.len() >= 2 && dev.take(2) == "lo"@) || (dev.len() >= 6
            && dev.take(6) == "docker"@) || (dev.len() >= 4 && dev.take(4) == "veth"@) || (dev.len()
            >= 3 && dev.take(3) == "br-"@) || (dev.len() >= 9 && dev.take(9) == "tailscale"@),
{
    reveal_strlit("lo");
    reveal_strlit("docker");
    reveal_strlit("veth");
    reveal_strlit("br-");
    reveal_strlit("tailscale");
    assert(dev.len() >= 2 ==> dev.take(2) =~= dev.subrange(0, 2));
    assert(dev.len() >= 6 ==> dev.take(6) =~= dev.subrange(0, 6));
    assert(dev.len() >= 4 ==> dev.take(4) =~= dev.subrange(0, 4));
    assert(dev.len() >= 3 ==> dev.take(3) =~= dev.subrange(0, 3));
    assert(dev.len() >= 9 ==> dev.take(9) =~= dev.subrange(0, 9));
}

/// Ficam de fora do I/O de disco exatamente os dispositivos cujo nome
/// comeca com `loop`, `ram`, `dm-` ou `sr`; todo outro conta.
pub proof fn lei_discos_ignorados(dev: Seq<char>)
    ensures
        ignora_disco_spec(dev) <==> (dev.len() >= 4 && dev.take(4) == "loop"@) || (dev.len() >= 3
            && dev.take(3) == "ram"@) || (dev.len() >= 3 && dev.take(3) == "dm-"@) || (dev.len() >= 2
            && dev.take(2) == "sr"@),
{
    reveal_strlit("loop");
    reveal_strlit("ram");
    reveal_strlit("dm-");
    reveal_strlit("sr");
    assert(dev.len() >= 4 ==> dev.take(4) =~= dev.subrange(0, 4));
    assert(dev.len() >= 3 ==> dev.take(3) =~= dev.subrange(0, 3));
    assert(dev.len() >= 2 ==> dev.take(2) =~= dev.subrange(0, 2));
}

pub fn ignora_net(dev: &str) -> (r: bool)
    ensures
        r == ignora_net_spec(dev@),
{
    let d = texto::chars_de(dev);
    texto::comeca_com(&d, "lo") || texto::comeca_com(&d, "docker") || texto::comeca_com(&d, "veth")
        || texto::comeca_com(&d, "br-") || texto::comeca_com(&d, "tailscale")
}

pub fn ignora_disco(dev: &str) -> (r: bool)
    ensures
        r == ignora_disco_spec(dev@),
{
    let d = texto::chars_de(dev);
    texto::comeca_com(&d, "loop") || texto::comeca_com(&d, "ram") || texto::comeca_com(&d, "dm-")
        || texto::comeca_com(&d, "sr")
}

/// Tipo do erro de rede, pelo texto da mensagem sem diferenca de caixa:
/// "Timeout", "ConnRecusada", "DNS" ou "Rede".
///
/// A comparacao e feita com as letras ASCII em minuscula. Nenhum caractere
/// fora do ASCII vira, em minuscula, um trecho ASCII que complete uma das
/// palavras procuradas, entao o resultado e o mesmo de `to_lowercase`.
pub open spec fn tipo_do_erro_spec(msg: Seq<char>) -> Seq<char> {
    let b = msg.map_values(|c: char| texto::minuscula(c));
    if texto::contem(b, "timed out"@) || texto::contem(b, "timeout"@) {
        "Timeout"@
    } else if texto::contem(b, "refused"@) {
        "ConnRecusada"@
    } else if texto::contem(b, "dns"@) || texto::contem(b, "resolve"@) {
        "DNS"@
    } else {
        "Rede"@
    }
}

/// O tipo do erro nao depende da caixa das letras da mensagem.
pub proof fn lei_tipo_sem_caixa(a: Seq<char>, b: Seq<char>)
    requires
        a.map_values(|c: char| texto::minuscula(c)) == b.map_values(|c: char| texto::minuscula(c)),
    ensures
        tipo_do_erro_spec(a) == tipo_do_erro_spec(b),
{
}

/// Cada tipo de erro e dito pelas palavras que a mensagem, em minusculas,
/// traz: "Timeout" quando traz "timed out" ou "timeout"; "ConnRecusada"
/// quando traz "refused" e nenhuma das duas; "DNS" quando traz "dns" ou
/// "resolve" e nenhuma das tres; "Rede" quando nao traz nenhuma delas.
pub proof fn lei_tipo_do_erro(msg: Seq<char>, b: Seq<char>)
    requires
        b == msg.map_values(|c: char| texto::minuscula(c)),
    ensures
        (tipo_do_erro_spec(msg) == "Timeout"@) <==> (texto::contem(b, "timed out"@) || texto::contem(
            b,
            "timeout"@,
        )),
        (tipo_do_erro_spec(msg) == "ConnRecusada"@) <==> (texto::contem(b, "refused"@)
            && !texto::contem(b, "timed out"@) && !texto::contem(b, "timeout"@)),
        (tipo_do_erro_spec(msg) == "DNS"@) <==> ((texto::contem(b, "dns"@) || texto::contem(
            b,
            "resolve"@,
        )) && !texto::contem(b, "refused"@) && !texto::contem(b, "timed out"@) && !texto::contem(
            b,
            "timeout"@,
        )),
        (tipo_do_erro_spec(msg) == "Rede"@) <==> (!texto::contem(b, "dns"@) && !texto::contem(
            b,
            "resolve"@,
        ) && !texto::contem(b, "refused"@) && !texto::contem(b, "timed out"@) && !texto::contem(
            b,
            "timeout"@,
        )),
{
    reveal_strlit("Timeout");
    reveal_strlit("ConnRecusada");
    reveal_strlit("DNS");
    reveal_strlit("Rede");
    assert("Timeout"@.len() == 7);
    assert("ConnRecusada"@.len() == 12);
    assert("DNS"@.len() == 3);
    assert("Rede"@.len() == 4);
}

pub fn tipo_do_erro(msg: &str) -> (r: String)
    ensures
        r@ == tipo_do_erro_spec(msg@),
{
    let m = texto::chars_de(msg);
    let mut b: Vec<char> = Vec::new();
    let mut i: usize = 0;
    while i < m.len()
        invariant
            i <= m.len(),
            b@ == m@.take(i as int).map_values(|c: char| texto::minuscula(c)),
        decreases m.len() - i,
    {
        b.push(texto::minuscula_de(m[i]));
        i = i + 1;
        assert(b@ =~= m@.take(i as int).map_values(|c: char| texto::minuscula(c)));
    }
    assert(m@.take(m.len() as int) =~= m@);
    if texto::contem_em(&b, "timed out") || texto::contem_em(&b, "timeout") {
        "Timeout".to_owned()
    } else if texto::contem_em(&b, "refused") {
        "ConnRecusada".to_owned()
    } else if texto::contem_em(&b, "dns") || texto::contem_em(&b, "resolve") {
        "DNS".to_owned()
    } else {
        "Rede".to_owned()
    }
}

/// Byte que vai para a URL sem escape.
pub open spec fn livre(b: u8) -> bool {
    (65 <= b <= 90) || (97 <= b <= 122) || (48 <= b <= 57) || b == 45 || b == 95 || b == 46
        || b == 126
}

/// Digito hexadecimal maiusculo.
pub open spec fn hexa(d: nat) -> char {
    if d < 10 {
        texto::digito(d)
    } else if d == 10 {
        'A'
    } else if d == 11 {
        'B'
    } else if d == 12 {
        'C'
    } else if d == 13 {
        'D'
    } else if d == 14 {
        'E'
    } else {
        'F'
    }
}

/// O que um byte vira na URL: ele mesmo, ou `%XX`.
pub open spec fn escapa(b: u8) -> Seq<char> {
    if livre(b) {
        seq![b as char]
    } else {
        seq!['%', hexa((b / 16) as nat), hexa((b % 16) as nat)]
    }
}

/// A codificacao de URL de uma sequencia de bytes.
pub open spec fn codifica(bs: Seq<u8>) -> Seq<char>
    decreases bs.len(),
{
    if bs.len() == 0 {
        Seq::empty()
    } else {
        codifica(bs.drop_last()) + escapa(bs.last())
    }
}

/// O valor de um digito hexadecimal maiusculo (0 para o que nao for).
pub open spec fn valor_hexa(c: char) -> nat {
    let u = c as u32;
    if 48 <= u <= 57 {
        (u - 48) as nat
    } else if 65 <= u <= 70 {
        (u - 55) as nat
    } else {
        0
    }
}

/// Decodificacao percentual: `%XX` vira o byte XX; qualquer outro caractere
/// vira o byte do seu codigo.
pub open spec fn decodifica(s: Seq<char>) -> Seq<u8>
    decreases s.len(),
{
    if s.len() == 0 {
        Seq::empty()
    } else if s[0] == '%' && s.len() >= 3 {
        seq![(valor_hexa(s[1]) * 16 + valor_hexa(s[2])) as u8] + decodifica(s.skip(3))
    } else {
        seq![(s[0] as u32) as u8] + decodifica(s.skip(1))
    }
}

proof fn lema_hexa(d: nat)
    requires
        d < 16,
    ensures
        valor_hexa(hexa(d)) == d,
        (hexa(d) as u32) < 128,
{
}

proof fn lema_escapa(b: u8, r: Seq<char>)
    ensures
        decodifica(escapa(b) + r) == seq![b] + decodifica(r),
        forall|i: int| 0 <= i < escapa(b).len() ==> (#[trigger] escapa(b)[i] as u32) < 128,
        1 <= escapa(b).len() <= 3,
{
    let e = escapa(b) + r;
    if livre(b) {
        assert(((b as char) as u32) == b);
        assert(e.skip(1) =~= r);
    } else {
        lema_hexa((b / 16) as nat);
        lema_hexa((b % 16) as nat);
        assert(e.skip(3) =~= r);
        assert((b / 16) * 16 + b % 16 == b);
    }
}

proof fn lema_codifica(bs: Seq<u8>, r: Seq<char>)
    ensures
        decodifica(codifica(bs) + r) == bs + decodifica(r),
        forall|i: int| 0 <= i < codifica(bs).len() ==> (#[trigger] codifica(bs)[i] as u32) < 128,
        bs.len() <= codifica(bs).len() <= 3 * bs.len(),
    decreases bs.len(),
{
    if bs.len() > 0 {
        let x = bs.drop_last();
        let l = bs.last();
        lema_escapa(l, r);
        lema_codifica(x, escapa(l) + r);
        assert(codifica(bs) + r =~= codifica(x) + (escapa(l) + r));
        assert(x + (seq![l] + decodifica(r)) =~= bs + decodifica(r));
        assert forall|i: int| 0 <= i < codifica(bs).len() implies (#[trigger] codifica(bs)[i] as u32) < 128 by {
            if i < codifica(x).len() {
                assert(codifica(bs)[i] == codifica(x)[i]);
            } else {
                assert(codifica(bs)[i] == escapa(l)[i - codifica(x).len()]);
            }
        }
    } else {
        assert(codifica(bs) + r =~= r);
        assert(bs + decodifica(r) =~= decodifica(r));
    }
}

/// A codificacao de URL so tem caracteres ASCII, a decodificacao percentual
/// devolve os bytes UTF-8 do texto, e o tamanho fica entre o numero desses
/// bytes e o triplo dele.
pub proof fn lei_url_encode(s: Seq<char>)
    ensures
        decodifica(codifica(vstd::utf8::encode_utf8(s))) == vstd::utf8::encode_utf8(s),
        forall|i: int|
            0 <= i < codifica(vstd::utf8::encode_utf8(s)).len() ==> (#[trigger] codifica(
                vstd::utf8::encode_utf8(s),
            )[i] as u32) < 128,
        vstd::utf8::encode_utf8(s).len() <= codifica(vstd::utf8::encode_utf8(s)).len() <= 3
            * vstd::utf8::encode_utf8(s).len(),
{
    let bs = vstd::utf8::encode_utf8(s);
    lema_codifica(bs, Seq::empty());
    assert(codifica(bs) + Seq::<char>::empty() =~= codifica(bs));
    assert(bs + decodifica(Seq::<char>::empty()) =~= bs);
}

fn hexa_de(d: u8) -> (c: char)
    requires
        d < 16,
    ensures
        c == hexa(d as nat),
{
    if d < 10 {
        texto::digito_de(d as u64)
    } else if d == 10 {
        'A'
    } else if d == 11 {
        'B'
    } else if d == 12 {
        'C'
    } else if d == 13 {
        'D'
    } else if d == 14 {
        'E'
    } else {
        'F'
    }
}

/// Escapa para URL os bytes UTF-8 do texto.
pub fn url_encode(s: &str) -> (r: String)
    ensures
        r@ == codifica(vstd::utf8::encode_utf8(s@)),
{
    let bs = s.as_bytes();
    let mut out: Vec<char> = Vec::new();
    let mut i: usize = 0;
    while i < bs.len()
        invariant
            i <= bs.len(),
            bs@ == vstd::utf8::encode_utf8(s@),
            out@ == codifica(bs@.take(i as int)),
        decreases bs.len() - i,
    {
        let b = bs[i];
        let ghost antes = out@;
        if (65 <= b && b <= 90) || (97 <= b && b <= 122) || (48 <= b && b <= 57) || b == 45 || b
            == 95 || b == 46 || b == 126 {
            out.push(b as char);
        } else {
            out.push('%');
            out.push(hexa_de(b / 16));
            out.push(hexa_de(b % 16));
        }
        proof {
            assert(bs@.take(i + 1).drop_last() =~= bs@.take(i as int));
            assert(out@ =~= antes + escapa(b));
        }
        i = i + 1;
    }
    assert(bs@.take(bs.len() as int) =~= bs@);
    texto::string_de(&out)
}

/// `<prom>/api/v1/query?query=<expr escapada>`
pub open spec fn url_consulta_spec(prom: Seq<char>, expr: Seq<char>) -> Seq<char> {
    prom + "/api/v1/query?query="@ + codifica(vstd::utf8::encode_utf8(expr))
}

/// A URL de uma consulta instantanea ao Prometheus.
pub fn url_consulta(prom: &str, expr: &str) -> (r: String)
    ensures
        r@ == url_consulta_spec(prom@, expr@),
{
    let e = url_encode(expr);
    let mut u: Vec<char> = Vec::new();
    texto::junta_str(&mut u, prom);
    texto::junta_str(&mut u, "/api/v1/query?query=");
    texto::junta_str(&mut u, e.as_str());
    texto::string_de(&u)
}

/// `<prom>/api/v1/query_range?query=<expr escapada>&start=<ini>&end=<fim>&step=<passo>`
pub open spec fn url_intervalo_spec(
    prom: Seq<char>,
    expr: Seq<char>,
    ini: int,
    fim: int,
    passo: int,
) -> Seq<char> {
    prom + "/api/v1/query_range?query="@ + codifica(vstd::utf8::encode_utf8(expr)) + "&start="@
        + texto::decimal_com_sinal(ini) + "&end="@ + texto::decimal_com_sinal(fim) + "&step="@
        + texto::decimal_com_sinal(passo)
}

/// A URL de uma consulta de intervalo ao Prometheus: de `ini` a `fim`, em
/// segundos desde a epoca, um ponto a cada `passo` segundos.
pub fn url_intervalo(prom: &str, expr: &str, ini: i64, fim: i64, passo: i64) -> (r: String)
    ensures
        r@ == url_intervalo_spec(prom@, expr@, ini as int, fim as int, passo as int),
{
    let e = url_encode(expr);
    let mut u: Vec<char> = Vec::new();
    texto::junta_str(&mut u, prom);
    texto::junta_str(&mut u, "/api/v1/query_range?query=");
    texto::junta_str(&mut u, e.as_str());
    texto::junta_str(&mut u, "&start=");
    let a = texto::decimal_i64_de(ini);
    texto::junta(&mut u, &a);
    texto::junta_str(&mut u, "&end=");
    let b = texto::decimal_i64_de(fim);
    texto::junta(&mut u, &b);
    texto::junta_str(&mut u, "&step=");
    let c = texto::decimal_i64_de(passo);
    texto::junta(&mut u, &c);
    texto::string_de(&u)
}

/// Os coletores pedidos ao node_exporter.
pub open spec fn coletores() -> Seq<Seq<char>> {
    seq![
        "cpu"@,
        "meminfo"@,
        "filesystem"@,
        "netdev"@,
        "diskstats"@,
        "loadavg"@,
        "time"@,
        "stat"@,
    ]
}

/// `http://<ip>:9100/metrics?collect[]=cpu&collect[]=meminfo&...`
pub open spec fn url_node_spec(ip: Seq<char>) -> Seq<char> {
    "http://"@ + ip + ":9100/metrics?"@ + texto::juntados(
        coletores().map_values(|c: Seq<char>| "collect[]="@ + c),
        "&"@,
    )
}

/// A URL de metricas do node_exporter de uma unidade.
pub fn url_node(ip: &str) -> (r: String)
    ensures
        r@ == url_node_spec(ip@),
{
    let mut nomes: Vec<String> = Vec::new();
    nomes.push("cpu".to_owned());
    nomes.push("meminfo".to_owned());
    nomes.push("filesystem".to_owned());
    nomes.push("netdev".to_owned());
    nomes.push("diskstats".to_owned());
    nomes.push("loadavg".to_owned());
    nomes.push("time".to_owned());
    nomes.push("stat".to_owned());
    assert(texto::vistas(nomes@) =~= coletores());
    let mut q: Vec<String> = Vec::new();
    let mut i: usize = 0;
    while i < nomes.len()
        invariant
            i <= nomes.len(),
            texto::vistas(nomes@) == coletores(),
            texto::vistas(q@) == coletores().take(i as int).map_values(
                |c: Seq<char>| "collect[]="@ + c,
            ),
        decreases nomes.len() - i,
    {
        let mut item: Vec<char> = Vec::new();
        texto::junta_str(&mut item, "collect[]=");
        texto::junta_str(&mut item, nomes[i].as_str());
        let ghost antes = texto::vistas(q@);
        assert(nomes@[i as int]@ == coletores()[i as int]);
        q.push(texto::string_de(&item));
        assert(texto::vistas(q@) =~= antes.push("collect[]="@ + coletores()[i as int]));
        assert(coletores().take(i + 1) =~= coletores().take(i as int).push(coletores()[i as int]));
        i = i + 1;
        assert(texto::vistas(q@) =~= coletores().take(i as int).map_values(
            |c: Seq<char>| "collect[]="@ + c,
        ));
    }
    assert(coletores().take(8) =~= coletores());
    let consulta = texto::junta_lista(&q, "&");
    let mut u: Vec<char> = Vec::new();
    texto::junta_str(&mut u, "http://");
    texto::junta_str(&mut u, ip);
    texto::junta_str(&mut u, ":9100/metrics?");
    texto::junta_str(&mut u, consulta.as_str());
    texto::string_de(&u)
}

} // verus!

verus! {

/// Valores distintos do rotulo `cpu` nas series `node_cpu_seconds_total`.
pub open spec fn cpus_vistas(met: Seq<LinhaMetrica>) -> Set<Seq<char>> {
    Set::new(
        |c: Seq<char>|
            exists|i: int|
                0 <= i < met.len() && #[trigger] met[i].nome@ == "node_cpu_seconds_total"@
                    && met[i].rotulos.mapa().contains_key("cpu"@) && met[i].rotulos.mapa()["cpu"@]
                    == c,
    )
}

/// Quantos processadores a unidade tem: os valores distintos do rotulo `cpu`
/// das series de tempo de CPU, pelo menos um.
pub fn conta_cpus(met: &Vec<LinhaMetrica>) -> (r: usize)
    ensures
        r == (if cpus_vistas(met@).len() > 1 {
            cpus_vistas(met@).len()
        } else {
            1
        }),
{
    let mut cpus: Vec<String> = Vec::new();
    let mut i: usize = 0;
    while i < met.len()
        invariant
            i <= met.len(),
            forall|c: Seq<char>|
                texto::vistas(cpus@).contains(c) <==> exists|k: int|
                    0 <= k < i && #[trigger] met@[k].nome@ == "node_cpu_seconds_total"@
                        && met@[k].rotulos.mapa().contains_key("cpu"@)
                        && met@[k].rotulos.mapa()["cpu"@] == c,
        decreases met.len() - i,
    {
        let m = &met[i];
        let ghost antes = texto::vistas(cpus@);
        if texto::str_igual(m.nome.as_str(), "node_cpu_seconds_total") {
            match m.rotulos.get("cpu") {
                Some(c) => {
                    cpus.push(c.clone());
                    assert(texto::vistas(cpus@) =~= antes.push(c@));
                    assert forall|x: Seq<char>|
                        texto::vistas(cpus@).contains(x) <==> exists|k: int|
                            0 <= k < i + 1 && #[trigger] met@[k].nome@
                                == "node_cpu_seconds_total"@ && met@[k].rotulos.mapa().contains_key(
                                "cpu"@,
                            ) && met@[k].rotulos.mapa()["cpu"@] == x by {
                        if texto::vistas(cpus@).contains(x) && !antes.contains(x) {
                            assert(texto::vistas(cpus@)[antes.len() as int] == c@);
                            assert(x == c@);
                            assert(met@[i as int].nome@ == "node_cpu_seconds_total"@);
                        }
                        if x == c@ {
                            assert(texto::vistas(cpus@)[antes.len() as int] == x);
                        }
                        if antes.contains(x) {
                            let j = choose|j: int| 0 <= j < antes.len() && antes[j] == x;
                            assert(texto::vistas(cpus@)[j] == x);
                        }
                    }
                },
                None => {
                    assert forall|x: Seq<char>|
                        texto::vistas(cpus@).contains(x) <==> exists|k: int|
                            0 <= k < i + 1 && #[trigger] met@[k].nome@
                                == "node_cpu_seconds_total"@ && met@[k].rotulos.mapa().contains_key(
                                "cpu"@,
                            ) && met@[k].rotulos.mapa()["cpu"@] == x by {
                        if exists|k: int|
                            0 <= k < i + 1 && #[trigger] met@[k].nome@ == "node_cpu_seconds_total"@
                                && met@[k].rotulos.mapa().contains_key("cpu"@)
                                && met@[k].rotulos.mapa()["cpu"@] == x {
                            let k = choose|k: int|
                                0 <= k < i + 1 && #[trigger] met@[k].nome@
                                    == "node_cpu_seconds_total"@
                                    && met@[k].rotulos.mapa().contains_key("cpu"@)
                                    && met@[k].rotulos.mapa()["cpu"@] == x;
                            assert(k != i);
                        }
                    }
                },
            }
        } else {
            assert forall|x: Seq<char>|
                texto::vistas(cpus@).contains(x) <==> exists|k: int|
                    0 <= k < i + 1 && #[trigger] met@[k].nome@ == "node_cpu_seconds_total"@
                        && met@[k].rotulos.mapa().contains_key("cpu"@)
                        && met@[k].rotulos.mapa()["cpu"@] == x by {
                if exists|k: int|
                    0 <= k < i + 1 && #[trigger] met@[k].nome@ == "node_cpu_seconds_total"@
                        && met@[k].rotulos.mapa().contains_key("cpu"@)
                        && met@[k].rotulos.mapa()["cpu"@] == x {
                    let k = choose|k: int|
                        0 <= k < i + 1 && #[trigger] met@[k].nome@ == "node_cpu_seconds_total"@
                            && met@[k].rotulos.mapa().contains_key("cpu"@)
                            && met@[k].rotulos.mapa()["cpu"@] == x;
                    assert(k != i);
                }
            }
        }
        i = i + 1;
    }
    let u = texto::unicos(&cpus);
    proof {
        let vu = texto::vistas(u@);
        assert(vu.no_duplicates()) by {
            assert forall|a: int, b: int| 0 <= a < vu.len() && 0 <= b < vu.len() && a != b implies vu[a]
                != vu[b] by {
                if a < b {
                    texto::lema_menor_irreflexivo(vu[a]);
                } else {
                    texto::lema_menor_irreflexivo(vu[b]);
                }
            }
        }
        vu.unique_seq_to_set();
        assert(vu.to_set() =~= cpus_vistas(met@)) by {
            assert forall|x: Seq<char>| vu.to_set().contains(x) <==> cpus_vistas(met@).contains(x) by {
                assert(texto::vistas(cpus@).to_set().contains(x) <==> texto::vistas(cpus@).contains(x));
            }
        }
    }
    if u.len() > 1 {
        u.len()
    } else {
        1
    }
}

/// Um container conta como tenant pelo prefixo do nome ou pelo servico do
/// Swarm; sem nenhum dos dois configurado, nada conta.
pub open spec fn conta_como_tenant(nome: Seq<char>, svc: Seq<char>, prefixo: Seq<char>, servico: Seq<char>) -> bool {
    (prefixo.len() > 0 && texto::comeca(nome, prefixo)) || (servico.len() > 0 && svc == servico)
}

/// Um container conta como tenant exatamente quando o nome comeca com o
/// prefixo, nao vazio, ou quando e do servico configurado, nao vazio; sem
/// servico, so o prefixo no comeco do nome vale, e nao no meio dele.
pub proof fn lei_conta_como_tenant(nome: Seq<char>, svc: Seq<char>, prefixo: Seq<char>, servico: Seq<char>)
    ensures
        conta_como_tenant(nome, svc, prefixo, servico) <==> ((prefixo.len() > 0 && prefixo.len()
            <= nome.len() && nome.take(prefixo.len() as int) == prefixo) || (servico.len() > 0 && svc
            == servico)),
        conta_como_tenant(nome, svc, prefixo, Seq::empty()) <==> (prefixo.len() > 0 && prefixo.len()
            <= nome.len() && nome.take(prefixo.len() as int) == prefixo),
{
    if prefixo.len() <= nome.len() {
        assert(nome.take(prefixo.len() as int) =~= nome.subrange(0, prefixo.len() as int));
    }
}

/// Quantos itens de `cs` (nome, servico) contam como tenant.
pub open spec fn conta_tenants_spec(cs: Seq<(String, String)>, prefixo: Seq<char>, servico: Seq<char>) -> nat
    decreases cs.len(),
{
    if cs.len() == 0 {
        0
    } else {
        conta_tenants_spec(cs.drop_last(), prefixo, servico) + if conta_como_tenant(
            cs.last().0@,
            cs.last().1@,
            prefixo,
            servico,
        ) {
            1nat
        } else {
            0nat
        }
    }
}

/// A contagem de tenants comeca em zero e soma um por container que tem o
/// prefixo (nao vazio) no comeco do nome ou e do servico (nao vazio), e
/// nada pelos outros.
pub proof fn lei_conta_tenants(cs: Seq<(String, String)>, c: (String, String), prefixo: Seq<char>, servico: Seq<char>)
    ensures
        conta_tenants_spec(Seq::empty(), prefixo, servico) == 0,
        conta_tenants_spec(cs.push(c), prefixo, servico) == conta_tenants_spec(cs, prefixo, servico)
            + if (prefixo.len() > 0 && prefixo.len() <= c.0@.len() && c.0@.take(prefixo.len() as int)
            == prefixo) || (servico.len() > 0 && c.1@ == servico) {
            1nat
        } else {
            0nat
        },
{
    assert(cs.push(c).drop_last() =~= cs);
    lei_conta_como_tenant(c.0@, c.1@, prefixo, servico);
}

/// A contagem de tenants e o numero de containers que contam: os que tem o
/// prefixo (nao vazio) no comeco do nome ou sao do servico (nao vazio).
pub proof fn lei_conta_tenants_filtro(cs: Seq<(String, String)>, prefixo: Seq<char>, servico: Seq<char>)
    ensures
        conta_tenants_spec(cs, prefixo, servico) == cs.filter(
            |c: (String, String)|
                (prefixo.len() > 0 && prefixo.len() <= c.0@.len() && c.0@.take(prefixo.len() as int)
                    == prefixo) || (servico.len() > 0 && c.1@ == servico),
        ).len(),
    decreases cs.len(),
{
    reveal(Seq::filter);
    if cs.len() > 0 {
        lei_conta_tenants_filtro(cs.drop_last(), prefixo, servico);
        lei_conta_como_tenant(cs.last().0@, cs.last().1@, prefixo, servico);
    }
}

/// O servico da aplicacao configurado, ou vazio sem bloco de cluster.
pub open spec fn servico_app_de(cfg: crate::cfg::Config) -> Seq<char> {
    match cfg.cluster {
        Some(c) => c.servico_app@,
        None => Seq::empty(),
    }
}

/// Quantos dos containers (nome, servico) sao de tenant.
///
/// No Swarm o nome ganha stack e id de task, entao o teste por prefixo
/// deixa de casar: `loja_app.1.<id>` nao comeca com `app_`. Por isso o
/// servico extraido da task tambem vale.
pub fn tenants(cfg: &crate::cfg::Config, containers: &Vec<(String, String)>) -> (r: usize)
    ensures
        r == conta_tenants_spec(containers@, cfg.prefixo_tenant@, servico_app_de(*cfg)),
{
    let p = &cfg.prefixo_tenant;
    let svc: String = match &cfg.cluster {
        Some(c) => c.servico_app.clone(),
        None => String::new(),
    };
    let pv = texto::chars_de(p.as_str());
    let mut n: usize = 0;
    let mut i: usize = 0;
    while i < containers.len()
        invariant
            i <= containers.len(),
            pv@ == cfg.prefixo_tenant@,
            p@ == cfg.prefixo_tenant@,
            svc@ == servico_app_de(*cfg),
            n == conta_tenants_spec(containers@.take(i as int), cfg.prefixo_tenant@, svc@),
            n <= i,
        decreases containers.len() - i,
    {
        let nome = texto::chars_de(containers[i].0.as_str());
        let c1 = pv.len() > 0 && texto::comeca_com(&nome, p.as_str());
        let c2 = !svc.as_str().is_empty() && texto::str_igual(containers[i].1.as_str(), svc.as_str());
        let conta = c1 || c2;
        assert(containers@.take(i + 1).drop_last() =~= containers@.take(i as int));
        assert(containers@.take(i + 1).last() == containers@[i as int]);
        assert(conta == conta_como_tenant(
            containers@[i as int].0@,
            containers@[i as int].1@,
            cfg.prefixo_tenant@,
            svc@,
        ));
        if conta {
            n = n + 1;
        }
        i = i + 1;
    }
    assert(containers@.take(containers.len() as int) =~= containers@);
    n
}

} // verus!

verus! {

/// O nome curto de uma unidade: `nome-ord`.
pub fn rotulo_unidade(nome: &str, ord: &str) -> (r: String)
    ensures
        r@ == nome@ + "-"@ + ord@,
{
    let mut v = texto::chars_de(nome);
    texto::junta_str(&mut v, "-");
    texto::junta_str(&mut v, ord);
    texto::string_de(&v)
}

} // verus!

verus! {

/// A unidade viva com mais containers: entre os indices `vivos`, o de maior
/// contagem; no empate, o que vem por ultimo em `vivos`.
pub fn mais_cheia(vivos: &Vec<usize>, contagens: &Vec<usize>) -> (r: Option<usize>)
    requires
        forall|i: int| 0 <= i < vivos.len() ==> #[trigger] vivos[i] < contagens.len(),
    ensures
        r is None <==> vivos.len() == 0,
        r matches Some(k) ==> exists|p: int|
            0 <= p < vivos.len() && #[trigger] vivos[p] == k && (forall|q: int|
                0 <= q < vivos.len() ==> contagens[#[trigger] vivos[q] as int] <= contagens[k as int])
                && (forall|q: int| p < q < vivos.len() ==> contagens[#[trigger] vivos[q] as int] < contagens[k as int]),
{
    if vivos.len() == 0 {
        return None;
    }
    let mut p: usize = 0;
    let mut i: usize = 1;
    while i < vivos.len()
        invariant
            1 <= i <= vivos.len(),
            p < i,
            forall|j: int| 0 <= j < vivos.len() ==> #[trigger] vivos[j] < contagens.len(),
            forall|q: int| 0 <= q < i ==> contagens[#[trigger] vivos[q] as int] <= contagens[vivos[p as int] as int],
            forall|q: int| p < q < i ==> contagens[#[trigger] vivos[q] as int] < contagens[vivos[p as int] as int],
        decreases vivos.len() - i,
    {
        if contagens[vivos[i]] >= contagens[vivos[p]] {
            p = i;
        }
        i = i + 1;
    }
    Some(vivos[p])
}

} // verus!

verus! {

proof fn lema_uniao(a: Seq<Seq<char>>, b: Seq<Seq<char>>)
    ensures
        (a + b).to_set() == a.to_set().union(b.to_set()),
{
    assert forall|x: Seq<char>| #[trigger] (a + b).to_set().contains(x) <==> a.to_set().union(
        b.to_set(),
    ).contains(x) by {
        if (a + b).contains(x) {
            let i = choose|i: int| 0 <= i < (a + b).len() && (a + b)[i] == x;
            if i < a.len() {
                assert(a[i] == x);
            } else {
                assert(b[i - a.len()] == x);
            }
        }
        if a.contains(x) {
            let i = choose|i: int| 0 <= i < a.len() && a[i] == x;
            assert((a + b)[i] == x);
        }
        if b.contains(x) {
            let i = choose|i: int| 0 <= i < b.len() && b[i] == x;
            assert((a + b)[a.len() + i] == x);
        }
    }
    assert((a + b).to_set() =~= a.to_set().union(b.to_set()));
}

/// Os nomes de container das duas consultas (CPU e memoria), sem repeticao e
/// em ordem crescente.
pub fn nomes_containers(a: &Vec<String>, b: &Vec<String>) -> (r: Vec<String>)
    ensures
        texto::crescente(texto::vistas(r@)),
        texto::vistas(r@).to_set() == texto::vistas(a@).to_set().union(texto::vistas(b@).to_set()),
{
    let mut todos: Vec<String> = Vec::new();
    let mut i: usize = 0;
    while i < a.len()
        invariant
            i <= a.len(),
            texto::vistas(todos@) == texto::vistas(a@).take(i as int),
        decreases a.len() - i,
    {
        let ghost antes = todos@;
        let c = a[i].clone();
        assert(c@ == a@[i as int]@);
        todos.push(c);
        assert(texto::vistas(todos@) =~= texto::vistas(antes).push(c@));
        assert(texto::vistas(a@).take(i + 1) =~= texto::vistas(a@).take(i as int).push(c@));
        i = i + 1;
    }
    let mut j: usize = 0;
    while j < b.len()
        invariant
            i == a.len(),
            j <= b.len(),
            texto::vistas(todos@) == texto::vistas(a@) + texto::vistas(b@).take(j as int),
        decreases b.len() - j,
    {
        let ghost antes = todos@;
        let c = b[j].clone();
        assert(c@ == b@[j as int]@);
        todos.push(c);
        assert(texto::vistas(todos@) =~= texto::vistas(antes).push(c@));
        assert(texto::vistas(b@).take(j + 1) =~= texto::vistas(b@).take(j as int).push(c@));
        j = j + 1;
    }
    proof {
        assert(texto::vistas(a@).take(a.len() as int) =~= texto::vistas(a@));
        assert(texto::vistas(b@).take(b.len() as int) =~= texto::vistas(b@));
        lema_uniao(texto::vistas(a@), texto::vistas(b@));
    }
    texto::unicos(&todos)
}

} // verus!

verus! {

/// A lista nova de containers substitui a anterior, a menos que venha vazia:
/// lista vazia costuma ser o Prometheus fora do ar, nao uma maquina sem
/// containers, e manter a ultima boa evita a tabela piscar.
pub fn aplicar_containers<T>(atual: &mut Vec<T>, lista: Vec<T>)
    ensures
        final(atual)@ == (if lista@.len() == 0 {
            old(atual)@
        } else {
            lista@
        }),
{
    if lista.len() > 0 {
        *atual = lista;
    }
}

} // verus!

verus! {

/// Que series de uma metrica entram numa conta.
#[derive(Clone, Copy, PartialEq, Eq, Structural, Debug)]
pub enum Filtro {
    /// Todas.
    Todas,
    /// So as de tempo ocioso: rotulo `mode` igual a `idle`.
    Ocioso,
    /// So as de interfaces que contam no trafego.
    Rede,
    /// So as de discos que contam no I/O.
    Disco,
    /// So a do sistema de arquivos raiz: rotulo `mountpoint` igual a `/`.
    Raiz,
}

/// O rotulo, ou vazio.
pub open spec fn rotulo_ou_vazio(r: Rotulos, chave: Seq<char>) -> Seq<char> {
    if r.mapa().contains_key(chave) {
        r.mapa()[chave]
    } else {
        Seq::empty()
    }
}

/// A serie com esses rotulos entra na conta.
pub open spec fn passa(f: Filtro, r: Rotulos) -> bool {
    match f {
        Filtro::Todas => true,
        Filtro::Ocioso => r.mapa().contains_key("mode"@) && r.mapa()["mode"@] == "idle"@,
        Filtro::Rede => !ignora_net_spec(rotulo_ou_vazio(r, "device"@)),
        Filtro::Disco => !ignora_disco_spec(rotulo_ou_vazio(r, "device"@)),
        Filtro::Raiz => r.mapa().contains_key("mountpoint"@) && r.mapa()["mountpoint"@] == "/"@,
    }
}

/// As posicoes, em ordem, das linhas da metrica `nome` que passam no filtro.
pub open spec fn escolhidas(met: Seq<LinhaMetrica>, nome: Seq<char>, f: Filtro) -> Seq<usize>
    decreases met.len(),
{
    if met.len() == 0 {
        Seq::empty()
    } else {
        let antes = escolhidas(met.drop_last(), nome, f);
        if met.last().nome@ == nome && passa(f, met.last().rotulos) {
            antes.push((met.len() - 1) as usize)
        } else {
            antes
        }
    }
}

/// As posicoes escolhidas sao, em ordem crescente e sem repeticao,
/// exatamente as das linhas com esse nome que passam no filtro.
pub proof fn lei_escolhidas(met: Seq<LinhaMetrica>, nome: Seq<char>, f: Filtro)
    requires
        met.len() <= usize::MAX,
    ensures
        forall|a: int, b: int|
            0 <= a < b < escolhidas(met, nome, f).len() ==> #[trigger] escolhidas(met, nome, f)[a]
                < #[trigger] escolhidas(met, nome, f)[b],
        forall|k: int|
            0 <= k < escolhidas(met, nome, f).len() ==> {
                let i = #[trigger] escolhidas(met, nome, f)[k] as int;
                i < met.len() && met[i].nome@ == nome && passa(f, met[i].rotulos)
            },
        forall|i: int|
            0 <= i < met.len() && (#[trigger] met[i]).nome@ == nome && passa(f, met[i].rotulos)
                ==> escolhidas(met, nome, f).contains(i as usize),
    decreases met.len(),
{
    if met.len() > 0 {
        let d = met.drop_last();
        lei_escolhidas(d, nome, f);
        let e = escolhidas(d, nome, f);
        assert forall|i: int|
            0 <= i < met.len() && (#[trigger] met[i]).nome@ == nome && passa(f, met[i].rotulos)
                implies escolhidas(met, nome, f).contains(i as usize) by {
            if i < met.len() - 1 {
                assert(met[i] == d[i]);
                let k = choose|k: int| 0 <= k < e.len() && e[k] == i as usize;
                assert(escolhidas(met, nome, f)[k] == i as usize);
            } else {
                assert(escolhidas(met, nome, f).last() == i as usize);
            }
        }
        assert forall|k: int| 0 <= k < escolhidas(met, nome, f).len() implies {
            let i = #[trigger] escolhidas(met, nome, f)[k] as int;
            i < met.len() && met[i].nome@ == nome && passa(f, met[i].rotulos)
        } by {
            if k < e.len() {
                assert(escolhidas(met, nome, f)[k] == e[k]);
                assert(met[e[k] as int] == d[e[k] as int]);
            }
        }
    }
}

fn passa_de(f: Filtro, r: &Rotulos) -> (b: bool)
    ensures
        b == passa(f, *r),
{
    match f {
        Filtro::Todas => true,
        Filtro::Ocioso => match r.get("mode") {
            Some(m) => texto::str_igual(m.as_str(), "idle"),
            None => false,
        },
        Filtro::Rede => {
            let d = r.rotulo("device");
            !ignora_net(d.as_str())
        },
        Filtro::Disco => {
            let d = r.rotulo("device");
            !ignora_disco(d.as_str())
        },
        Filtro::Raiz => match r.get("mountpoint") {
            Some(m) => texto::str_igual(m.as_str(), "/"),
            None => false,
        },
    }
}

/// As linhas que entram numa soma ou numa leitura: as da metrica `nome` que
/// passam no filtro, em ordem; ver `escolhidas`.
pub fn escolhidas_de(met: &Vec<LinhaMetrica>, nome: &str, f: Filtro) -> (r: Vec<usize>)
    ensures
        r@ == escolhidas(met@, nome@, f),
        forall|i: int| 0 <= i < r.len() ==> #[trigger] r@[i] < met.len(),
{
    let mut r: Vec<usize> = Vec::new();
    let mut i: usize = 0;
    assert(met@.take(0) =~= Seq::<LinhaMetrica>::empty());
    while i < met.len()
        invariant
            i <= met.len(),
            r@ == escolhidas(met@.take(i as int), nome@, f),
            forall|k: int| 0 <= k < r.len() ==> #[trigger] r@[k] < i,
        decreases met.len() - i,
    {
        assert(met@.take(i + 1).drop_last() =~= met@.take(i as int));
        assert(met@.take(i + 1).last() == met@[i as int]);
        if texto::str_igual(met[i].nome.as_str(), nome) && passa_de(f, &met[i].rotulos) {
            r.push(i);
        }
        i = i + 1;
    }
    assert(met@.take(met.len() as int) =~= met@);
    r
}

} // verus!

verus! {

/// Por que a tabela de containers de uma unidade esta vazia: a unidade nao
/// roda cAdvisor, o Prometheus nao trouxe dados, ou a unidade esta fora.
pub fn motivo_sem_containers(sem_cadvisor: bool, online: bool) -> (r: &'static str)
    ensures
        r@ == (if sem_cadvisor {
            "sem cAdvisor nesta unidade, nao ha metrica de container"@
        } else if online {
            "sem dados do Prometheus"@
        } else {
            "unidade offline"@
        }),
{
    if sem_cadvisor {
        "sem cAdvisor nesta unidade, nao ha metrica de container"
    } else if online {
        "sem dados do Prometheus"
    } else {
        "unidade offline"
    }
}

} // verus!
