//! As decisoes da interface: o que cada tecla faz, qual aba desenhar, os
//! rotulos das abas, o pedido de tamanho ao terminal, o alvo do Prometheus
//! na tela de boot e a escrita colorida antes do modo alternativo.
use vstd::prelude::*;

use crate::texto;

verus! {

/// Uma tecla pressionada.
#[derive(Clone, Copy, PartialEq, Eq, Structural, Debug)]
pub enum Tecla {
    /// Um caractere, e se o Control estava junto.
    Caractere(char, bool),
    Tab,
    Direita,
    Esquerda,
    Outra,
}

/// O que fazer alem de mudar de aba.
#[derive(Clone, Copy, PartialEq, Eq, Structural, Debug)]
pub enum Acao {
    Nada,
    Sair,
    Atualizar,
}

/// O valor de um digito ASCII, se for um.
pub open spec fn valor_digito(c: char) -> Option<nat> {
    let u = c as u32;
    if 48 <= u <= 57 {
        Some((u - 48) as nat)
    } else {
        None
    }
}

/// A aba e a acao depois da tecla: `q` ou Ctrl+C sai, um digito de 1 ao
/// numero de abas vai direto a ela, TAB e seta direita avancam e a seta
/// esquerda volta em ciclo, `r` pede atualizacao.
pub open spec fn tecla_spec(aba: nat, total: nat, t: Tecla) -> (nat, Acao) {
    match t {
        Tecla::Caractere(c, ctrl) => {
            if c == 'q' || c == 'Q' {
                (aba, Acao::Sair)
            } else if c == 'c' && ctrl {
                (aba, Acao::Sair)
            } else if valor_digito(c) is Some {
                let i = valor_digito(c).unwrap();
                if 1 <= i <= total {
                    ((i - 1) as nat, Acao::Nada)
                } else {
                    (aba, Acao::Nada)
                }
            } else if c == 'r' || c == 'R' {
                (aba, Acao::Atualizar)
            } else {
                (aba, Acao::Nada)
            }
        },
        Tecla::Tab | Tecla::Direita => ((aba + 1) % total, Acao::Nada),
        Tecla::Esquerda => (((aba + total - 1) % (total as int)) as nat, Acao::Nada),
        Tecla::Outra => (aba, Acao::Nada),
    }
}

pub fn tecla(aba: usize, total: usize, t: Tecla) -> (r: (usize, Acao))
    requires
        aba < total,
        total <= usize::MAX / 2,
    ensures
        (r.0 as nat, r.1) == tecla_spec(aba as nat, total as nat, t),
        r.0 < total,
{
    match t {
        Tecla::Caractere(c, ctrl) => {
            if c == 'q' || c == 'Q' {
                (aba, Acao::Sair)
            } else if c == 'c' && ctrl {
                (aba, Acao::Sair)
            } else {
                let u = c as u32;
                if 48 <= u && u <= 57 {
                    let i = (u - 48) as usize;
                    if 1 <= i && i <= total {
                        (i - 1, Acao::Nada)
                    } else {
                        (aba, Acao::Nada)
                    }
                } else if c == 'r' || c == 'R' {
                    (aba, Acao::Atualizar)
                } else {
                    (aba, Acao::Nada)
                }
            }
        },
        Tecla::Tab | Tecla::Direita => ((aba + 1) % total, Acao::Nada),
        Tecla::Esquerda => ((aba + total - 1) % total, Acao::Nada),
        Tecla::Outra => (aba, Acao::Nada),
    }
}

proof fn lema_ciclo(x: nat, total: nat)
    requires
        0 < total,
        x < 2 * total,
    ensures
        x % total == (if x < total {
            x
        } else {
            (x - total) as nat
        }),
{
    if x < total {
        vstd::arithmetic::div_mod::lemma_small_mod(x, total);
    } else {
        vstd::arithmetic::div_mod::lemma_mod_add_multiples_vanish((x - total) as int, total as int);
        vstd::arithmetic::div_mod::lemma_small_mod((x - total) as nat, total);
    }
}

/// A seta esquerda desfaz a direita, e vice-versa.
pub proof fn lei_setas_inversas(aba: nat, total: nat)
    requires
        aba < total,
    ensures
        tecla_spec(tecla_spec(aba, total, Tecla::Direita).0, total, Tecla::Esquerda).0 == aba,
        tecla_spec(tecla_spec(aba, total, Tecla::Esquerda).0, total, Tecla::Direita).0 == aba,
{
    lema_ciclo(aba + 1, total);
    lema_ciclo((aba + total - 1) as nat, total);
    let d = tecla_spec(aba, total, Tecla::Direita).0;
    let e = tecla_spec(aba, total, Tecla::Esquerda).0;
    lema_ciclo((d + total - 1) as nat, total);
    lema_ciclo(e + 1, total);
}

/// Nenhuma tecla tira a aba do intervalo.
pub proof fn lei_aba_valida(aba: nat, total: nat, t: Tecla)
    requires
        aba < total,
    ensures
        tecla_spec(aba, total, t).0 < total,
{
}

/// O que ocupa o corpo da tela.
#[derive(Clone, Copy, PartialEq, Eq, Structural, Debug)]
pub enum Aba {
    Geral,
    Unidade(usize),
    Diagrama,
    Cluster,
}

/// GERAL, uma por unidade, DIAGRAMA, e CLUSTER por ultimo quando
/// configurada.
pub open spec fn aba_spec(aba: int, n: int, com_cluster: bool) -> Aba {
    let total = n + 2 + if com_cluster {
        1int
    } else {
        0
    };
    if aba == 0 {
        Aba::Geral
    } else if com_cluster && aba == total - 1 {
        Aba::Cluster
    } else if aba == n + 1 {
        Aba::Diagrama
    } else {
        Aba::Unidade((aba - 1) as usize)
    }
}

/// Quantas abas ha.
pub fn total_abas(n: usize, com_cluster: bool) -> (t: usize)
    requires
        n <= usize::MAX - 3,
    ensures
        t == n + 2 + if com_cluster {
            1int
        } else {
            0
        },
{
    n + 2 + if com_cluster {
        1
    } else {
        0
    }
}

pub fn aba_de(aba: usize, n: usize, com_cluster: bool) -> (r: Aba)
    requires
        n <= usize::MAX - 3,
    ensures
        r == aba_spec(aba as int, n as int, com_cluster),
{
    let total = total_abas(n, com_cluster);
    if aba == 0 {
        Aba::Geral
    } else if com_cluster && aba == total - 1 {
        Aba::Cluster
    } else if aba == n + 1 {
        Aba::Diagrama
    } else {
        Aba::Unidade(aba - 1)
    }
}

/// Cada aba valida mostra uma coisa so, e cada unidade tem a sua aba.
pub proof fn lei_abas_distintas(a: int, b: int, n: int, com_cluster: bool)
    requires
        0 <= n <= usize::MAX - 3,
        0 <= a < n + 2 + if com_cluster {
            1int
        } else {
            0
        },
        0 <= b < n + 2 + if com_cluster {
            1int
        } else {
            0
        },
        a != b,
    ensures
        aba_spec(a, n, com_cluster) != aba_spec(b, n, com_cluster),
        aba_spec(a, n, com_cluster) matches Aba::Unidade(i) ==> i < n,
{
    if a > 0 && b > 0 {
        assert(((a - 1) as usize) as int == a - 1);
        assert(((b - 1) as usize) as int == b - 1);
    }
}

} // verus!

verus! {

/// O valor decimal de uma sequencia de digitos.
pub open spec fn valor_decimal(d: Seq<char>) -> nat
    decreases d.len(),
{
    if d.len() == 0 {
        0
    } else {
        valor_decimal(d.drop_last()) * 10 + match valor_digito(d.last()) {
            Some(v) => v,
            None => 0,
        }
    }
}

/// Sem o `+` do comeco, se houver.
pub open spec fn sem_mais(s: Seq<char>) -> Seq<char> {
    if s.len() > 0 && s[0] == '+' {
        s.drop_first()
    } else {
        s
    }
}

/// So digitos ASCII.
pub open spec fn so_digitos(d: Seq<char>) -> bool {
    forall|i: int| 0 <= i < d.len() ==> #[trigger] valor_digito(d[i]) is Some
}

/// `str::parse::<u16>()`: digitos ASCII, com `+` opcional na frente, sem
/// passar de 65535.
pub open spec fn parse_u16(s: Seq<char>) -> Option<u16> {
    let d = sem_mais(s);
    if d.len() == 0 || !so_digitos(d) {
        None
    } else if valor_decimal(d) > 65535 {
        None
    } else {
        Some(valor_decimal(d) as u16)
    }
}

pub fn parse_u16_de(s: &Vec<char>, a: usize) -> (r: Option<u16>)
    requires
        a <= s.len(),
    ensures
        r == parse_u16(s@.subrange(a as int, s.len() as int)),
{
    let ghost t = s@.subrange(a as int, s.len() as int);
    let mut i = a;
    if i < s.len() && s[i] == '+' {
        i = i + 1;
    }
    let ghost d = s@.subrange(i as int, s.len() as int);
    assert(d =~= sem_mais(t));
    if i >= s.len() {
        return None;
    }
    let ini = i;
    let mut v: u32 = 0;
    while i < s.len()
        invariant
            a <= ini <= i <= s.len(),
            t == s@.subrange(a as int, s.len() as int),
            d == sem_mais(t),
            d == s@.subrange(ini as int, s.len() as int),
            v == valor_decimal(s@.subrange(ini as int, i as int)),
            v <= 65535,
            forall|k: int| ini <= k < i ==> valor_digito(#[trigger] s@[k]) is Some,
        decreases s.len() - i,
    {
        let u = s[i] as u32;
        if !(48 <= u && u <= 57) {
            assert(d[i - ini] == s@[i as int]);
            assert(valor_digito(s@[i as int]) is None);
            assert(valor_digito(d[i - ini]) is None);
            assert(d.len() > 0);
            return None;
        }
        assert(s@.subrange(ini as int, i + 1).drop_last() =~= s@.subrange(ini as int, i as int));
        let nv = v * 10 + (u - 48);
        proof {
            let pre = s@.subrange(ini as int, i + 1);
            assert(pre.last() == s@[i as int]);
            assert(valor_digito(s@[i as int]) == Some((u - 48) as nat));
            assert(valor_decimal(pre) == nv);
        }
        if nv > 65535 {
            proof {
                lema_decimal_cresce(d, (i + 1 - ini) as int);
                assert(d.subrange(0, i + 1 - ini) =~= s@.subrange(ini as int, i + 1));
            }
            return None;
        }
        v = nv;
        i = i + 1;
    }
    assert(s@.subrange(ini as int, i as int) =~= d);
    Some(v as u16)
}

pub(crate) proof fn lema_digito(d: nat)
    requires
        d < 10,
    ensures
        valor_digito(texto::digito(d)) == Some(d),
{
}

proof fn lema_valor_do_decimal(n: nat)
    ensures
        texto::decimal(n).len() > 0,
        so_digitos(texto::decimal(n)),
        valor_decimal(texto::decimal(n)) == n,
    decreases n,
{
    let d = texto::decimal(n);
    if n < 10 {
        lema_digito(n);
        assert(d.drop_last() =~= Seq::<char>::empty());
        assert(valor_decimal(d.drop_last()) == 0);
        assert(d.last() == texto::digito(n));
        assert(valor_decimal(d) == n);
    } else {
        lema_valor_do_decimal(n / 10);
        lema_digito(n % 10);
        let a = texto::decimal(n / 10);
        assert(d.drop_last() =~= a);
        assert(d.last() == texto::digito(n % 10));
        assert(valor_decimal(d) == valor_decimal(a) * 10 + (n % 10));
        assert((n / 10) * 10 + n % 10 == n);
        assert forall|i: int| 0 <= i < d.len() implies #[trigger] valor_digito(d[i]) is Some by {
            if i < a.len() {
                assert(d[i] == a[i]);
            }
        }
    }
}

/// A escrita decimal de um numero so tem digitos, le-se de volta como o
/// proprio numero e nao comeca com zero, a nao ser a do zero.
pub proof fn lei_decimal(n: nat)
    ensures
        texto::decimal(n).len() > 0,
        so_digitos(texto::decimal(n)),
        valor_decimal(texto::decimal(n)) == n,
        texto::decimal(n)[0] == '0' ==> n == 0,
    decreases n,
{
    lema_valor_do_decimal(n);
    if n >= 10 {
        lei_decimal(n / 10);
        assert(texto::decimal(n)[0] == texto::decimal(n / 10)[0]);
    }
}

/// Um numero escrito em decimal, com ou sem `+` na frente, e lido de volta
/// como ele mesmo quando cabe em `u16`, e recusado quando nao cabe.
pub proof fn lei_parse_u16_do_decimal(n: nat)
    ensures
        n <= 65535 ==> parse_u16(texto::decimal(n)) == Some(n as u16),
        n <= 65535 ==> parse_u16(seq!['+'] + texto::decimal(n)) == Some(n as u16),
        n > 65535 ==> parse_u16(texto::decimal(n)) is None,
        n > 65535 ==> parse_u16(seq!['+'] + texto::decimal(n)) is None,
{
    lema_valor_do_decimal(n);
    let d = texto::decimal(n);
    assert(valor_digito(d[0]) is Some);
    assert(d[0] != '+');
    assert(sem_mais(d) == d);
    assert((seq!['+'] + d).drop_first() =~= d);
    assert(sem_mais(seq!['+'] + d) == d);
}

/// Com mais digitos o valor nao diminui.
proof fn lema_decimal_cresce(d: Seq<char>, k: int)
    requires
        0 <= k <= d.len(),
    ensures
        valor_decimal(d.subrange(0, k)) <= valor_decimal(d),
    decreases d.len() - k,
{
    if k < d.len() {
        lema_decimal_cresce(d, k + 1);
        assert(d.subrange(0, k + 1).drop_last() =~= d.subrange(0, k));
    } else {
        assert(d.subrange(0, k) =~= d);
    }
}

/// O host e a porta do Prometheus a partir da URL: sem o esquema, ate a
/// primeira barra; a porta e o que vem depois do ultimo `:`, e 9090 quando
/// falta ou nao e numero. URL vazia: nada a checar.
pub open spec fn alvo_spec(url: Seq<char>) -> Option<(Seq<char>, u16)> {
    if url.len() == 0 {
        None
    } else {
        let p = texto::acha_trecho(url, 0, "://"@);
        let sem_esquema = if p < url.len() {
            let resto = url.subrange(p + 3, url.len() as int);
            resto.subrange(0, texto::acha_trecho(resto, 0, "://"@))
        } else {
            url
        };
        let aut = sem_esquema.subrange(0, texto::acha(sem_esquema, 0, '/'));
        let q = texto::ultimo_de(aut, ':');
        if q >= 0 {
            Some(
                (
                    aut.subrange(0, q),
                    match parse_u16(aut.subrange(q + 1, aut.len() as int)) {
                        Some(n) => n,
                        None => 9090,
                    },
                ),
            )
        } else {
            Some((aut, 9090))
        }
    }
}

} // verus!

verus! {

proof fn lema_acha_trecho_pula(s: Seq<char>, i: int, k: int, p: Seq<char>)
    requires
        0 <= i <= k,
        forall|j: int| i <= j < k && j + p.len() <= s.len() ==> #[trigger] s.subrange(j, j + p.len()) != p,
    ensures
        texto::acha_trecho(s, i, p) == texto::acha_trecho(s, k, p),
    decreases k - i,
{
    if i < k {
        lema_acha_trecho_pula(s, i + 1, k, p);
    }
}

proof fn lema_acha_trecho_ate(s: Seq<char>, i: int, p: Seq<char>)
    requires
        0 <= i <= s.len(),
    ensures
        i <= texto::acha_trecho(s, i, p) <= s.len(),
    decreases s.len() + 1 - i,
{
    if i + p.len() <= s.len() {
        if p.len() == 0 {
            assert(s.subrange(i, i + p.len()) =~= p);
        } else if s.subrange(i, i + p.len()) != p {
            lema_acha_trecho_ate(s, i + 1, p);
        }
    }
}

proof fn lema_ultimo_de_ausente(s: Seq<char>, c: char)
    requires
        forall|m: int| 0 <= m < s.len() ==> #[trigger] s[m] != c,
    ensures
        texto::ultimo_de(s, c) == -1,
    decreases s.len(),
{
    if s.len() > 0 {
        let d = s.drop_last();
        assert forall|m: int| 0 <= m < d.len() implies #[trigger] d[m] != c by {
            assert(d[m] == s[m]);
        }
        lema_ultimo_de_ausente(d, c);
    }
}

/// Numa URL `esquema://host[:porta][/caminho]` o alvo e o host escrito nela
/// e a porta escrita nela, ou 9090 quando ela nao vem.
pub proof fn lei_alvo_da_url(esq: Seq<char>, host: Seq<char>, porta: Option<u16>, caminho: Seq<char>)
    requires
        forall|i: int| 0 <= i < esq.len() ==> #[trigger] esq[i] != ':',
        forall|i: int| 0 <= i < host.len() ==> #[trigger] host[i] != ':' && host[i] != '/',
        caminho.len() == 0 || caminho[0] == '/',
    ensures
        alvo_spec(esq + "://"@ + host + match porta {
            Some(n) => seq![':'] + texto::decimal(n as nat),
            None => Seq::empty(),
        } + caminho) == Some(
            (
                host,
                match porta {
                    Some(n) => n,
                    None => 9090u16,
                },
            ),
        ),
{
    reveal_strlit("://");
    let sep: Seq<char> = "://"@;
    assert(sep =~= seq![':', '/', '/']);
    let pt: Seq<char> = match porta {
        Some(n) => seq![':'] + texto::decimal(n as nat),
        None => Seq::empty(),
    };
    let dec: Seq<char> = match porta {
        Some(n) => texto::decimal(n as nat),
        None => Seq::empty(),
    };
    match porta {
        Some(n) => {
            lema_valor_do_decimal(n as nat);
        },
        None => {},
    }
    let aut = host + pt;
    let resto = aut + caminho;
    let u = esq + sep + resto;
    assert(esq + "://"@ + host + pt + caminho == u);
    let e = esq.len() as int;
    // o esquema acaba no primeiro "://"
    assert forall|j: int| 0 <= j < e && j + 3 <= u.len() implies #[trigger] u.subrange(j, j + 3) != sep by {
        assert(u.subrange(j, j + 3)[0] == esq[j]);
    }
    lema_acha_trecho_pula(u, 0, e, sep);
    assert(u.subrange(e, e + 3) =~= sep);
    assert(texto::acha_trecho(u, 0, sep) == e);
    assert(u.subrange(e + 3, u.len() as int) =~= resto);
    // no resto, "://" so pode vir depois da autoridade
    let ca = aut.len() as int;
    assert forall|m: int| 0 <= m < ca implies #[trigger] aut[m] != '/' && (m < host.len() ==> aut[m]
        != ':') by {
        if m < host.len() {
            assert(aut[m] == host[m]);
        } else {
            match porta {
                Some(n) => {
                    if m > host.len() {
                        assert(aut[m] == dec[m - host.len() - 1]);
                        assert(valor_digito(dec[m - host.len() - 1]) is Some);
                    }
                },
                None => {},
            }
        }
    }
    assert forall|j: int| 0 <= j < ca && j + 3 <= resto.len() implies #[trigger] resto.subrange(j, j + 3)
        != sep by {
        if resto.subrange(j, j + 3) == sep {
            assert(resto.subrange(j, j + 3)[1] == resto[j + 1]);
            assert(resto.subrange(j, j + 3)[0] == resto[j]);
            if j + 1 < ca {
                assert(resto[j + 1] == aut[j + 1]);
            } else {
                assert(resto[j] == aut[j]);
                match porta {
                    Some(n) => {
                        if j > host.len() {
                            assert(aut[j] == dec[j - host.len() - 1]);
                            assert(valor_digito(dec[j - host.len() - 1]) is Some);
                        } else {
                            assert(caminho.len() > 0);
                            assert(resto[j + 1] == caminho[0]);
                            assert(resto[j + 2] == caminho[1]);
                            assert(false);
                        }
                    },
                    None => {},
                }
            }
        }
    }
    lema_acha_trecho_pula(resto, 0, ca, sep);
    let q2 = texto::acha_trecho(resto, 0, sep);
    if ca + 3 > resto.len() {
        assert(q2 == resto.len());
    }
    lema_acha_trecho_ate(resto, ca, sep);
    let se = resto.subrange(0, q2);
    // a barra do caminho, ou o fim
    texto::lema_acha(se, 0, '/');
    let b = texto::acha(se, 0, '/');
    if b < ca {
        assert(se[b] == aut[b]);
    }
    if ca < se.len() {
        assert(se[ca] == caminho[0]);
    }
    assert(b == ca);
    assert(se.subrange(0, b) =~= aut);
    match porta {
        Some(n) => {
            assert(aut[host.len() as int] == ':');
            assert forall|m: int| host.len() < m < aut.len() implies #[trigger] aut[m] != ':' by {
                assert(aut[m] == dec[m - host.len() - 1]);
                assert(valor_digito(dec[m - host.len() - 1]) is Some);
            }
            crate::coleta::lema_ultimo_de_em(aut, ':', host.len() as int);
            assert(aut.subrange(0, host.len() as int) =~= host);
            assert(aut.subrange(host.len() as int + 1, aut.len() as int) =~= dec);
            lei_parse_u16_do_decimal(n as nat);
        },
        None => {
            assert(aut =~= host);
            lema_ultimo_de_ausente(aut, ':');
        },
    }
}

/// O alvo que a tela de boot checa; ver `alvo_spec`.
pub fn alvo_prometheus(url: &str) -> (r: Option<(String, u16)>)
    ensures
        match r {
            Some((h, p)) => alvo_spec(url@) == Some((h@, p)),
            None => alvo_spec(url@) is None,
        },
{
    let u = texto::chars_de(url);
    if u.len() == 0 {
        return None;
    }
    let p = texto::acha_trecho_em(&u, 0, "://");
    let sem_esquema = if p < u.len() {
        proof {
            reveal_strlit("://");
        }
        proof {
            texto::lema_acha_trecho(u@, 0, "://"@);
        }
        let resto = texto::trecho(&u, p + 3, u.len());
        let q = texto::acha_trecho_em(&resto, 0, "://");
        texto::trecho(&resto, 0, q)
    } else {
        u.clone()
    };
    assert(u@ =~= url@);
    let barra = texto::acha_em(&sem_esquema, 0, '/');
    let aut = texto::trecho(&sem_esquema, 0, barra);
    match texto::ultimo_de_em(&aut, ':') {
        Some(q) => {
            let host = texto::trecho(&aut, 0, q);
            let porta = match parse_u16_de(&aut, q + 1) {
                Some(n) => n,
                None => 9090,
            };
            Some((texto::string_de(&host), porta))
        },
        None => Some((texto::string_de(&aut), 9090)),
    }
}

/// `" <n> <nome> "`, o rotulo da aba de numero `n`.
pub open spec fn rotulo_aba(n: nat, nome: Seq<char>) -> Seq<char> {
    " "@ + texto::decimal(n) + " "@ + nome + " "@
}

/// Os nomes das abas, em ordem: GERAL, cada unidade, DIAGRAMA e, com o
/// cluster configurado, CLUSTER.
pub open spec fn nomes_abas_spec(unidades: Seq<Seq<char>>, com_cluster: bool) -> Seq<Seq<char>> {
    seq!["GERAL"@] + unidades + seq!["DIAGRAMA"@] + if com_cluster {
        seq!["CLUSTER"@]
    } else {
        Seq::empty()
    }
}

/// Os rotulos do cabecalho, numerados a partir de 1.
pub fn rotulos_abas(unidades: &Vec<String>, com_cluster: bool) -> (r: Vec<String>)
    requires
        unidades.len() + 3 <= u64::MAX,
    ensures
        r.len() == nomes_abas_spec(texto::vistas(unidades@), com_cluster).len(),
        forall|i: int|
            0 <= i < r.len() ==> #[trigger] r@[i]@ == rotulo_aba(
                (i + 1) as nat,
                nomes_abas_spec(texto::vistas(unidades@), com_cluster)[i],
            ),
{
    let mut nomes: Vec<String> = Vec::new();
    nomes.push("GERAL".to_owned());
    let mut k: usize = 0;
    while k < unidades.len()
        invariant
            k <= unidades.len(),
            texto::vistas(nomes@) == seq!["GERAL"@] + texto::vistas(unidades@).take(k as int),
        decreases unidades.len() - k,
    {
        let ghost antes = nomes@;
        let u = unidades[k].clone();
        assert(u@ == unidades@[k as int]@);
        nomes.push(u);
        proof {
            assert(texto::vistas(nomes@) =~= texto::vistas(antes).push(u@));
            assert(texto::vistas(unidades@).take(k + 1) =~= texto::vistas(unidades@).take(k as int).push(
                u@,
            ));
        }
        k = k + 1;
    }
    nomes.push("DIAGRAMA".to_owned());
    if com_cluster {
        nomes.push("CLUSTER".to_owned());
    }
    let ghost alvo = nomes_abas_spec(texto::vistas(unidades@), com_cluster);
    assert(texto::vistas(unidades@).take(unidades.len() as int) =~= texto::vistas(unidades@));
    assert(texto::vistas(nomes@) =~= alvo);
    let mut r: Vec<String> = Vec::new();
    let mut i: usize = 0;
    while i < nomes.len()
        invariant
            i <= nomes.len() <= unidades.len() + 3,
            unidades.len() + 3 <= u64::MAX,
            texto::vistas(nomes@) == alvo,
            r.len() == i,
            forall|j: int| 0 <= j < i ==> #[trigger] r@[j]@ == rotulo_aba((j + 1) as nat, alvo[j]),
        decreases nomes.len() - i,
    {
        let mut v: Vec<char> = Vec::new();
        texto::junta_str(&mut v, " ");
        let d = texto::decimal_de((i + 1) as u64);
        texto::junta(&mut v, &d);
        texto::junta_str(&mut v, " ");
        texto::junta_str(&mut v, nomes[i].as_str());
        texto::junta_str(&mut v, " ");
        assert(v@ =~= rotulo_aba((i + 1) as nat, alvo[i as int]));
        r.push(texto::string_de(&v));
        i = i + 1;
    }
    r
}

/// A sequencia CSI 8 que pede ao terminal o tamanho em que o painel cabe,
/// so quando ele e menor nalguma dimensao; nunca encolhe.
pub open spec fn pedido_resize_spec(larg: u16, alt: u16, li: u16, ai: u16) -> Option<Seq<char>> {
    if larg >= li && alt >= ai {
        None
    } else {
        let a = if alt >= ai {
            alt
        } else {
            ai
        };
        let l = if larg >= li {
            larg
        } else {
            li
        };
        Some("\u{1b}[8;"@ + texto::decimal(a as nat) + ";"@ + texto::decimal(l as nat) + "t"@)
    }
}

/// O pedido so aparece quando o terminal e menor que o ideal nalguma
/// dimensao, e nunca pede menos do que o terminal ja tem em nenhuma delas.
pub proof fn lei_resize_so_aumenta(larg: u16, alt: u16, li: u16, ai: u16)
    ensures
        pedido_resize_spec(larg, alt, li, ai) is None <==> (larg >= li && alt >= ai),
        pedido_resize_spec(larg, alt, li, ai) is Some ==> exists|a: u16, l: u16|
            a >= alt && a >= ai && l >= larg && l >= li && (a == alt || a == ai) && (l == larg || l == li)
                && #[trigger] pedido_resize_spec(larg, alt, li, ai) == Some(
                "\u{1b}[8;"@ + texto::decimal(a as nat) + ";"@ + texto::decimal(l as nat) + "t"@,
            ),
{
    if !(larg >= li && alt >= ai) {
        let a = if alt >= ai {
            alt
        } else {
            ai
        };
        let l = if larg >= li {
            larg
        } else {
            li
        };
        assert(pedido_resize_spec(larg, alt, li, ai) == Some(
            "\u{1b}[8;"@ + texto::decimal(a as nat) + ";"@ + texto::decimal(l as nat) + "t"@,
        ));
    }
}

pub fn pedido_resize(larg: u16, alt: u16, li: u16, ai: u16) -> (r: Option<String>)
    ensures
        match r {
            Some(s) => pedido_resize_spec(larg, alt, li, ai) == Some(s@),
            None => pedido_resize_spec(larg, alt, li, ai) is None,
        },
{
    if larg >= li && alt >= ai {
        return None;
    }
    let a = if alt >= ai {
        alt
    } else {
        ai
    };
    let l = if larg >= li {
        larg
    } else {
        li
    };
    let mut v: Vec<char> = Vec::new();
    texto::junta_str(&mut v, "\u{1b}[8;");
    let da = texto::decimal_de(a as u64);
    texto::junta(&mut v, &da);
    texto::junta_str(&mut v, ";");
    let dl = texto::decimal_de(l as u64);
    texto::junta(&mut v, &dl);
    texto::junta_str(&mut v, "t");
    Some(texto::string_de(&v))
}

/// Texto colorido em sequencias ANSI: a cor da frente em RGB, negrito se
/// pedido, e o reset no fim.
pub open spec fn pinta_spec(s: Seq<char>, rgb: Option<(u8, u8, u8)>, negrito: bool) -> Seq<char> {
    let cor = match rgb {
        Some((r, g, b)) => "\u{1b}[38;2;"@ + texto::decimal(r as nat) + ";"@ + texto::decimal(
            g as nat,
        ) + ";"@ + texto::decimal(b as nat) + "m"@,
        None => Seq::empty(),
    };
    let forte = if negrito {
        "\u{1b}[1m"@
    } else {
        Seq::empty()
    };
    cor + forte + s + "\u{1b}[0m"@
}

pub fn pinta(s: &str, rgb: Option<(u8, u8, u8)>, negrito: bool) -> (r: String)
    ensures
        r@ == pinta_spec(s@, rgb, negrito),
{
    let mut v: Vec<char> = Vec::new();
    match rgb {
        Some((r, g, b)) => {
            texto::junta_str(&mut v, "\u{1b}[38;2;");
            let dr = texto::decimal_de(r as u64);
            texto::junta(&mut v, &dr);
            texto::junta_str(&mut v, ";");
            let dg = texto::decimal_de(g as u64);
            texto::junta(&mut v, &dg);
            texto::junta_str(&mut v, ";");
            let db = texto::decimal_de(b as u64);
            texto::junta(&mut v, &db);
            texto::junta_str(&mut v, "m");
        },
        None => {},
    }
    if negrito {
        texto::junta_str(&mut v, "\u{1b}[1m");
    }
    texto::junta_str(&mut v, s);
    texto::junta_str(&mut v, "\u{1b}[0m");
    assert(v@ =~= pinta_spec(s@, rgb, negrito));
    texto::string_de(&v)
}

} // verus!
