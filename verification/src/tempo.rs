//! Datas e horas: dias desde a epoca em data civil, e o relogio do cabecalho.
use vstd::prelude::*;
use crate::texto;
use crate::ui;

verus! {

/// Ano bissexto do calendario gregoriano proleptico.
pub open spec fn bissexto(a: int) -> bool {
    a % 4 == 0 && (a % 100 != 0 || a % 400 == 0)
}

/// Quantos dias tem o mes `m` (1 a 12) do ano `a`.
pub open spec fn dias_no_mes(a: int, m: int) -> int {
    if m == 2 {
        if bissexto(a) {
            29
        } else {
            28
        }
    } else if m == 4 || m == 6 || m == 9 || m == 11 {
        30
    } else {
        31
    }
}

/// Uma data que existe no calendario.
pub open spec fn data_valida(a: int, m: int, d: int) -> bool {
    1 <= m <= 12 && 1 <= d <= dias_no_mes(a, m)
}

/// Anos bissextos de 1 ate `a` (para `a` abaixo de 1, o negativo dos que ha
/// de `a + 1` ate 0).
pub open spec fn bissextos_ate(a: int) -> int {
    a / 4 - a / 100 + a / 400
}

/// Dias de 1 de janeiro de 1970 a 1 de janeiro de `a`.
pub open spec fn dias_ate_ano(a: int) -> int {
    365 * (a - 1970) + bissextos_ate(a - 1) - bissextos_ate(1969)
}

/// Dias do ano `a` antes do mes `m`.
pub open spec fn dias_ate_mes(a: int, m: int) -> int
    decreases m,
{
    if m <= 1 {
        0
    } else {
        dias_ate_mes(a, m - 1) + dias_no_mes(a, m - 1)
    }
}

/// O numero do dia da data, contado de 1 de janeiro de 1970 (dia 0).
pub open spec fn dia_da_data(a: int, m: int, d: int) -> int {
    dias_ate_ano(a) + dias_ate_mes(a, m) + d - 1
}

} // verus!

verus! {

/// Os dias antes de cada mes, em forma fechada: de marco em diante a conta
/// vem da regra dos meses de 153 dias a cada 5.
pub proof fn lema_dias_ate_mes(a: int, m: int)
    requires
        1 <= m <= 12,
    ensures
        dias_ate_mes(a, m) == if m == 1 {
            0
        } else if m == 2 {
            31
        } else {
            59 + (if bissexto(a) {
                1int
            } else {
                0int
            }) + (153 * (m - 3) + 2) / 5
        },
{
    reveal_with_fuel(dias_ate_mes, 13);
}

/// Os bissextos se repetem a cada 400 anos, 97 por ciclo.
pub proof fn lema_ciclo_400(k: int, r: int)
    ensures
        bissextos_ate(400 * k + r) == 97 * k + bissextos_ate(r),
        bissexto(400 * k + r) == bissexto(r),
{
    assert((400 * k + r) / 4 == 100 * k + r / 4);
    assert((400 * k + r) / 100 == 4 * k + r / 100);
    assert((400 * k + r) / 400 == k + r / 400);
    assert((400 * k + r) % 4 == r % 4);
    assert((400 * k + r) % 100 == r % 100);
    assert((400 * k + r) % 400 == r % 400);
}

/// Cada ano conta um bissexto a mais exatamente quando e bissexto.
pub proof fn lema_bissextos_passo(a: int)
    ensures
        bissextos_ate(a) == bissextos_ate(a - 1) + if bissexto(a) {
            1int
        } else {
            0int
        },
{
}

/// O ano seguinte comeca depois de todos os dias deste.
pub proof fn lema_ano_seguinte(a: int)
    ensures
        dias_ate_ano(a + 1) == dias_ate_ano(a) + 365 + if bissexto(a) {
            1int
        } else {
            0int
        },
{
    lema_bissextos_passo(a);
}

} // verus!

verus! {

/// Na era de 400 anos que comeca em 1 de marco do ano 0, o ano (0 a 399) em
/// que cai o dia `doe` da era.
pub open spec fn ano_da_era(doe: int) -> int {
    (doe - doe / 1460 + doe / 36524 - doe / 146096) / 365
}

/// Dias da era antes de 1 de marco do ano `yoe` dela.
pub open spec fn dias_ate_ano_da_era(yoe: int) -> int {
    365 * yoe + yoe / 4 - yoe / 100
}

/// O ano que `ano_da_era` acha e o certo: o dia cai dentro dele, e so cai no
/// dia 366 num ano cujo fevereiro e bissexto.
pub proof fn lema_ano_da_era(doe: int)
    requires
        0 <= doe <= 146096,
    ensures
        0 <= ano_da_era(doe) <= 399,
        0 <= doe - dias_ate_ano_da_era(ano_da_era(doe)) <= 365,
        doe - dias_ate_ano_da_era(ano_da_era(doe)) == 365 ==> bissexto(ano_da_era(doe) + 1),
{
    if doe == 146096 {
        assert(ano_da_era(doe) == 399);
        assert(dias_ate_ano_da_era(399) == 145731);
    } else {
        let c = doe / 36524;
        let e = doe % 36524;
        let q = e / 1461;
        let f = e % 1461;
        let t = if f / 365 > 3 {
            3
        } else {
            f / 365
        };
        let dy = f - 365 * t;
        let y = 100 * c + 4 * q + t;
        assert(0 <= c <= 3);
        assert(doe == 36524 * c + e && 0 <= e < 36524);
        assert(e == 1461 * q + f && 0 <= f < 1461 && 0 <= q <= 24);
        assert(0 <= dy <= 365);
        assert(dy == 365 ==> q <= 23);
        let delta = if 24 * c + q + 365 * t + dy >= 1460 {
            1int
        } else {
            0int
        };
        assert(doe == 1460 * (25 * c + q) + 24 * c + q + 365 * t + dy);
        assert(doe / 1460 == 25 * c + q + delta);
        assert(doe / 36524 == c);
        assert(doe / 146096 == 0);
        assert(doe == 365 * y + 24 * c + q + dy);
        assert(ano_da_era(doe) == y);
        assert(y / 4 == 25 * c + q);
        assert(y / 100 == c);
        assert(dias_ate_ano_da_era(y) == 365 * y + 24 * c + q);
    }
}

} // verus!

verus! {

/// O mes civil do dia `doy` de um ano contado de 1 de marco.
pub open spec fn mes_de(doy: int) -> int {
    let mp = (5 * doy + 2) / 153;
    if mp < 10 {
        mp + 3
    } else {
        mp - 9
    }
}

/// O dia do mes do dia `doy` de um ano contado de 1 de marco.
pub open spec fn dia_de(doy: int) -> int {
    doy - (153 * ((5 * doy + 2) / 153) + 2) / 5 + 1
}

/// Do dia do ano contado de marco sai um mes e um dia que existem, desde que
/// o dia 366 so ocorra quando o fevereiro, do ano `a`, e bissexto.
pub proof fn lema_mes_e_dia(doy: int, a: int)
    requires
        0 <= doy <= 365,
        doy == 365 ==> bissexto(a),
    ensures
        0 <= (5 * doy + 2) / 153 <= 11,
        1 <= dia_de(doy),
        mes_de(doy) == 2 ==> dia_de(doy) <= dias_no_mes(a, 2),
        mes_de(doy) != 2 ==> dia_de(doy) <= dias_no_mes(0, mes_de(doy)),
{
    let mp = (5 * doy + 2) / 153;
    assert(153 * mp <= 5 * doy + 2 < 153 * mp + 153);
}

} // verus!

verus! {

/// A data que a conta de Hinnant da para o dia `z1` contado de 1 de marco do
/// ano 0: a era, o ano nela, o dia no ano, e dai mes e dia.
spec fn ano_de(z1: int) -> int {
    let era = z1 / 146097;
    let doe = z1 % 146097;
    let y = ano_da_era(doe) + era * 400;
    if mes_de(doe - dias_ate_ano_da_era(ano_da_era(doe))) <= 2 {
        y + 1
    } else {
        y
    }
}

/// A data da conta de Hinnant existe e tem o numero de dia de que partiu.
proof fn lema_data_do_dia(z1: int)
    ensures
        ({
            let doe = z1 % 146097;
            let doy = doe - dias_ate_ano_da_era(ano_da_era(doe));
            &&& data_valida(ano_de(z1), mes_de(doy), dia_de(doy))
            &&& dia_da_data(ano_de(z1), mes_de(doy), dia_de(doy)) == z1 - 719468
        }),
{
    let era = z1 / 146097;
    let doe = z1 % 146097;
    lema_ano_da_era(doe);
    let yoe = ano_da_era(doe);
    let doy = doe - dias_ate_ano_da_era(yoe);
    let y = yoe + era * 400;
    let m = mes_de(doy);
    let d = dia_de(doy);
    let mp = (5 * doy + 2) / 153;
    lema_ciclo_400(era, yoe + 1);
    lema_mes_e_dia(doy, y + 1);
    lema_dias_ate_mes(ano_de(z1), m);
    lema_ciclo_400(era, yoe - 1);
    lema_ciclo_400(era, yoe);
    lema_bissextos_passo(yoe);
    lema_ano_seguinte(y);
    assert(z1 == 146097 * era + doe);
    assert(bissextos_ate(yoe) == yoe / 4 - yoe / 100);
    assert(dias_ate_ano(y) + 59 + (if bissexto(y) {
        1int
    } else {
        0int
    }) + doy == z1 - 719468);
    if m <= 2 {
        assert(mp >= 10);
        assert(dia_da_data(y + 1, m, d) == dias_ate_ano(y + 1) + dias_ate_mes(y + 1, m) + d - 1);
    } else {
        assert(mp < 10);
        assert(m - 3 == mp);
    }
}

/// Dias desde 1 de janeiro de 1970 (negativos antes) na data civil (ano, mes,
/// dia), pelo algoritmo de Howard Hinnant.
pub fn civil(z: i64) -> (r: (i64, u32, u32))
    requires
        z <= i64::MAX - 719468,
    ensures
        data_valida(r.0 as int, r.1 as int, r.2 as int),
        dia_da_data(r.0 as int, r.1 as int, r.2 as int) == z,
{
    let z1 = z + 719468;
    let era: i64 = if z1 >= 0 {
        z1
    } else {
        z1 - 146096
    } / 146097;
    assert(era == z1 / 146097);
    assert(z1 % 146097 == z1 - era * 146097);
    let doe = (z1 - era * 146097) as u64;
    proof {
        lema_ano_da_era(doe as int);
        lema_data_do_dia(z1 as int);
    }
    let yoe = (doe - doe / 1460 + doe / 36524 - doe / 146096) / 365;
    assert(yoe == ano_da_era(doe as int));
    let y = yoe as i64 + era * 400;
    let doy = doe - (365 * yoe + yoe / 4 - yoe / 100);
    let mp = (5 * doy + 2) / 153;
    let d = (doy - (153 * mp + 2) / 5 + 1) as u32;
    let m = if mp < 10 {
        mp + 3
    } else {
        mp - 9
    } as u32;
    (
        if m <= 2 {
            y + 1
        } else {
            y
        },
        m,
        d,
    )
}

} // verus!

verus! {

/// Os dias de uma data valida antes dela no proprio ano: de 0 ao tamanho do
/// ano menos 1.
proof fn lema_dia_no_ano(a: int, m: int, d: int)
    requires
        data_valida(a, m, d),
    ensures
        0 <= dias_ate_mes(a, m) + d - 1 < 365 + if bissexto(a) {
            1int
        } else {
            0int
        },
{
    lema_dias_ate_mes(a, m);
}

/// No mesmo ano, um mes anterior vem antes de qualquer dia de um posterior.
proof fn lema_mes_antes(a: int, m1: int, d1: int, m2: int, d2: int)
    requires
        data_valida(a, m1, d1),
        data_valida(a, m2, d2),
        m1 < m2,
    ensures
        dias_ate_mes(a, m1) + d1 < dias_ate_mes(a, m2) + d2,
{
    lema_dias_ate_mes(a, m1);
    lema_dias_ate_mes(a, m2);
    lema_dias_ate_mes(a, m1 + 1);
    assert(dias_ate_mes(a, m1 + 1) == dias_ate_mes(a, m1) + dias_no_mes(a, m1));
}

/// Um ano anterior termina antes de um posterior comecar.
proof fn lema_anos_crescem(a1: int, a2: int)
    requires
        a1 < a2,
    ensures
        dias_ate_ano(a1) + 365 + (if bissexto(a1) {
            1int
        } else {
            0int
        }) <= dias_ate_ano(a2),
    decreases a2 - a1,
{
    lema_ano_seguinte(a1);
    if a1 + 1 < a2 {
        lema_anos_crescem(a1 + 1, a2);
    }
}

/// Cada numero de dia e de uma so data: datas validas com o mesmo numero sao
/// a mesma data.
pub proof fn lei_data_unica(a1: int, m1: int, d1: int, a2: int, m2: int, d2: int)
    requires
        data_valida(a1, m1, d1),
        data_valida(a2, m2, d2),
        dia_da_data(a1, m1, d1) == dia_da_data(a2, m2, d2),
    ensures
        a1 == a2,
        m1 == m2,
        d1 == d2,
{
    lema_dia_no_ano(a1, m1, d1);
    lema_dia_no_ano(a2, m2, d2);
    if a1 < a2 {
        lema_anos_crescem(a1, a2);
    } else if a2 < a1 {
        lema_anos_crescem(a2, a1);
    } else if m1 < m2 {
        lema_mes_antes(a1, m1, d1, m2, d2);
    } else if m2 < m1 {
        lema_mes_antes(a1, m2, d2, m1, d1);
    }
}

} // verus!

verus! {

/// A data (ano, mes, dia) do dia `z` contado de 1970: a valida com esse numero.
pub open spec fn data_do_dia(z: int) -> (int, int, int) {
    choose|a: int, m: int, d: int| #[trigger] dia_da_data(a, m, d) == z && data_valida(a, m, d)
}

/// Uma data valida e a data do seu numero de dia.
pub proof fn lema_data_do_dia_unica(z: int, a: int, m: int, d: int)
    requires
        data_valida(a, m, d),
        dia_da_data(a, m, d) == z,
    ensures
        data_do_dia(z) == (a, m, d),
{
    assert(exists|a2: int, m2: int, d2: int|
        #[trigger] dia_da_data(a2, m2, d2) == z && data_valida(a2, m2, d2));
    let t = data_do_dia(z);
    lei_data_unica(t.0, t.1, t.2, a, m, d);
}

/// Quociente de inteiros como em Rust: trunca para zero.
pub open spec fn quoc(a: int, b: int) -> int {
    if a >= 0 {
        a / b
    } else {
        -((-a) / b)
    }
}

/// Resto de inteiros como em Rust: tem o sinal do dividendo.
pub open spec fn resto(a: int, b: int) -> int {
    a - b * quoc(a, b)
}

/// `{:02}` de um inteiro: dois digitos no minimo, com o sinal contando na
/// largura.
pub open spec fn dois_digitos(n: int) -> Seq<char> {
    if n < 0 {
        "-"@ + texto::decimal((-n) as nat)
    } else {
        texto::decimal2(n as nat)
    }
}

/// "DD/MM hh:mm:ss" do instante `secs`, em segundos desde a epoca ja
/// acertados para o fuso local.
pub open spec fn hhmmss_spec(secs: int) -> Seq<char> {
    let dia = resto(secs, 86400);
    let data = data_do_dia(quoc(secs, 86400));
    dois_digitos(data.2) + "/"@ + dois_digitos(data.1) + " "@ + dois_digitos(quoc(dia, 3600)) + ":"@
        + dois_digitos(quoc(resto(dia, 3600), 60)) + ":"@ + dois_digitos(resto(dia, 60))
}

fn dois_digitos_de(n: i64) -> (r: Vec<char>)
    requires
        n > i64::MIN,
    ensures
        r@ == dois_digitos(n as int),
{
    if n < 0 {
        let mut v: Vec<char> = Vec::new();
        v.push('-');
        let d = texto::decimal_de((-n) as u64);
        texto::junta(&mut v, &d);
        proof {
            reveal_strlit("-");
        }
        assert(v@ =~= dois_digitos(n as int));
        v
    } else {
        texto::decimal2_de(n as u64)
    }
}

/// O relogio do cabecalho, do instante ja no fuso local.
pub fn agora_hhmmss(secs: i64) -> (r: String)
    ensures
        r@ == hhmmss_spec(secs as int),
{
    let dia = secs % 86400;
    assert(dia == resto(secs as int, 86400));
    let h = dia / 3600;
    let m = (dia % 3600) / 60;
    let s = dia % 60;
    assert(h == quoc(dia as int, 3600));
    assert(m == quoc(resto(dia as int, 3600), 60));
    assert(s == resto(dia as int, 60));
    let dias = secs / 86400;
    assert(dias == quoc(secs as int, 86400));
    let (ano, mes, diam) = civil(dias);
    proof {
        lema_data_do_dia_unica(dias as int, ano as int, mes as int, diam as int);
    }
    let mut v = dois_digitos_de(diam as i64);
    texto::junta_str(&mut v, "/");
    let t = dois_digitos_de(mes as i64);
    texto::junta(&mut v, &t);
    texto::junta_str(&mut v, " ");
    let t = dois_digitos_de(h);
    texto::junta(&mut v, &t);
    texto::junta_str(&mut v, ":");
    let t = dois_digitos_de(m);
    texto::junta(&mut v, &t);
    texto::junta_str(&mut v, ":");
    let t = dois_digitos_de(s);
    texto::junta(&mut v, &t);
    assert(v@ =~= hhmmss_spec(secs as int));
    texto::string_de(&v)
}

} // verus!

verus! {

/// `str::parse::<i64>()` de um texto de dois caracteres: dois digitos, ou
/// um sinal e um digito.
pub open spec fn par_i64(x: char, y: char) -> Option<int> {
    match (ui::valor_digito(x), ui::valor_digito(y)) {
        (Some(a), Some(b)) => Some((10 * a + b) as int),
        (None, Some(b)) => if x == '+' {
            Some(b as int)
        } else if x == '-' {
            Some(-b)
        } else {
            None
        },
        _ => None,
    }
}

/// Ocupa um so byte em UTF-8.
pub open spec fn ascii(c: char) -> bool {
    (c as u32) < 128
}

/// O deslocamento do fuso em segundos, lido da saida de `date +%z` (como
/// "-0300"): sem os espacos das pontas, o sinal no primeiro caractere, as
/// horas nos bytes 1 e 2 e os minutos nos bytes 3 e 4; 0 se nao der para ler.
pub open spec fn desloc_spec(s: Seq<char>) -> int {
    let t = texto::apara(s);
    if t.len() >= 5 && ascii(t[0]) && par_i64(t[1], t[2]) is Some && par_i64(t[3], t[4]) is Some {
        (if t[0] == '-' {
            -1int
        } else {
            1int
        }) * (par_i64(t[1], t[2]).unwrap() * 3600 + par_i64(t[3], t[4]).unwrap() * 60)
    } else {
        0
    }
}

fn valor_digito_de(c: char) -> (r: Option<i64>)
    ensures
        match ui::valor_digito(c) {
            Some(v) => r == Some(v as i64),
            None => r is None,
        },
{
    let u = c as u32;
    if 48 <= u && u <= 57 {
        Some((u - 48) as i64)
    } else {
        None
    }
}

fn par_i64_de(x: char, y: char) -> (r: Option<i64>)
    ensures
        match par_i64(x, y) {
            Some(v) => r == Some(v as i64),
            None => r is None,
        },
        r matches Some(v) ==> -9 <= v <= 99,
{
    match (valor_digito_de(x), valor_digito_de(y)) {
        (Some(a), Some(b)) => Some(10 * a + b),
        (None, Some(b)) => if x == '+' {
            Some(b)
        } else if x == '-' {
            Some(-b)
        } else {
            None
        },
        _ => None,
    }
}

/// O deslocamento do fuso na saida de `date +%z`; ver `desloc_spec`.
pub fn desloc_de(saida: &str) -> (r: i64)
    ensures
        r == desloc_spec(saida@),
{
    let v = texto::chars_de(saida);
    let (a, b) = texto::apara_em(&v, 0, v.len());
    assert(v@.subrange(0, v.len() as int) =~= saida@);
    let ghost t = v@.subrange(a as int, b as int);
    if b - a < 5 {
        return 0;
    }
    assert(t[0] == v@[a as int] && t[1] == v@[a + 1] && t[2] == v@[a + 2] && t[3] == v@[a + 3]
        && t[4] == v@[a + 4]);
    let c0 = v[a];
    if (c0 as u32) >= 128 {
        return 0;
    }
    let h = match par_i64_de(v[a + 1], v[a + 2]) {
        Some(h) => h,
        None => {
            return 0;
        },
    };
    let m = match par_i64_de(v[a + 3], v[a + 4]) {
        Some(m) => m,
        None => {
            return 0;
        },
    };
    let sinal: i64 = if c0 == '-' {
        -1
    } else {
        1
    };
    sinal * (h * 3600 + m * 60)
}

} // verus!

verus! {

/// Uma duracao em segundos, curta: "Nd HHh" com dias, senao "HHh MMm".
pub open spec fn dur_h_spec(s: nat) -> Seq<char> {
    let d = s / 86400;
    let h = (s % 86400) / 3600;
    let m = (s % 86400) % 3600 / 60;
    if d > 0 {
        texto::decimal(d) + "d "@ + texto::decimal2(h) + "h"@
    } else {
        texto::decimal2(h) + "h "@ + texto::decimal2(m) + "m"@
    }
}

pub fn dur_h(s: u64) -> (r: String)
    ensures
        r@ == dur_h_spec(s as nat),
{
    let d = s / 86400;
    let resto = s % 86400;
    let h = resto / 3600;
    let resto = resto % 3600;
    let m = resto / 60;
    let mut v: Vec<char>;
    if d > 0 {
        v = texto::decimal_de(d);
        texto::junta_str(&mut v, "d ");
        let t = texto::decimal2_de(h);
        texto::junta(&mut v, &t);
        texto::junta_str(&mut v, "h");
    } else {
        v = texto::decimal2_de(h);
        texto::junta_str(&mut v, "h ");
        let t = texto::decimal2_de(m);
        texto::junta(&mut v, &t);
        texto::junta_str(&mut v, "m");
    }
    texto::string_de(&v)
}

} // verus!

verus! {

/// A contagem de dias comeca em 1 de janeiro de 1970 e anda um por dia: o
/// dia seguinte de uma data valida, no mesmo mes, no mes seguinte ou no ano
/// seguinte, tem o numero seguinte; e um ano tem 365 dias, 366 se bissexto.
pub proof fn lei_dia_seguinte(a: int, m: int, d: int)
    requires
        data_valida(a, m, d),
    ensures
        dia_da_data(1970, 1, 1) == 0,
        d < dias_no_mes(a, m) ==> data_valida(a, m, d + 1) && dia_da_data(a, m, d + 1)
            == dia_da_data(a, m, d) + 1,
        d == dias_no_mes(a, m) && m < 12 ==> data_valida(a, m + 1, 1) && dia_da_data(a, m + 1, 1)
            == dia_da_data(a, m, d) + 1,
        d == dias_no_mes(a, m) && m == 12 ==> data_valida(a + 1, 1, 1) && dia_da_data(a + 1, 1, 1)
            == dia_da_data(a, m, d) + 1,
        dia_da_data(a + 1, 1, 1) - dia_da_data(a, 1, 1) == 365 + if bissexto(a) {
            1int
        } else {
            0int
        },
{
    assert(dias_ate_ano(1970) == 0);
    assert(dias_ate_mes(1970, 1) == 0);
    assert(dias_ate_mes(a, 1) == 0);
    assert(dias_ate_mes(a + 1, 1) == 0);
    lema_ano_seguinte(a);
    lema_dias_ate_mes(a, 12);
    if m < 12 {
        assert(dias_ate_mes(a, m + 1) == dias_ate_mes(a, m) + dias_no_mes(a, m));
    }
}

/// O relogio mostra o dia e o mes da data e a hora, o minuto e o segundo do
/// instante, para todo instante de 1970 em diante.
pub proof fn lei_relogio(a: int, mes: int, d: int, h: int, mi: int, s: int)
    requires
        data_valida(a, mes, d),
        dia_da_data(a, mes, d) >= 0,
        0 <= h < 24,
        0 <= mi < 60,
        0 <= s < 60,
    ensures
        hhmmss_spec(86400 * dia_da_data(a, mes, d) + 3600 * h + 60 * mi + s) == dois_digitos(d) + "/"@
            + dois_digitos(mes) + " "@ + dois_digitos(h) + ":"@ + dois_digitos(mi) + ":"@
            + dois_digitos(s),
{
    let z = dia_da_data(a, mes, d);
    let r = 3600 * h + 60 * mi + s;
    let secs = 86400 * z + r;
    assert(0 <= r < 86400);
    assert(secs / 86400 == z) by (nonlinear_arith)
        requires
            secs == 86400 * z + r,
            0 <= r < 86400,
            z >= 0,
    ;
    assert(quoc(secs, 86400) == z);
    assert(resto(secs, 86400) == r);
    assert(r / 3600 == h) by (nonlinear_arith)
        requires
            r == 3600 * h + 60 * mi + s,
            0 <= mi < 60,
            0 <= s < 60,
            0 <= h,
    ;
    assert(quoc(r, 3600) == h);
    assert(resto(r, 3600) == 60 * mi + s);
    assert((60 * mi + s) / 60 == mi) by (nonlinear_arith)
        requires
            0 <= s < 60,
            0 <= mi,
    ;
    assert(quoc(resto(r, 3600), 60) == mi);
    assert(r / 60 == 60 * h + mi) by (nonlinear_arith)
        requires
            r == 3600 * h + 60 * mi + s,
            0 <= s < 60,
            0 <= h,
            0 <= mi,
    ;
    assert(resto(r, 60) == s);
    lema_data_do_dia_unica(z, a, mes, d);
}

} // verus!

verus! {

/// Dois digitos decimais de um numero abaixo de 100, com zero a esquerda.
proof fn lema_decimal2(n: nat)
    requires
        n < 100,
    ensures
        texto::decimal2(n) == seq![texto::digito(n / 10), texto::digito(n % 10)],
{
    if n >= 10 {
        assert(texto::decimal(n / 10) == seq![texto::digito(n / 10)]);
        assert(texto::decimal(n) =~= seq![texto::digito(n / 10), texto::digito(n % 10)]);
    }
}

/// A duracao mostra os dias e as horas inteiras quando ha dias, e senao as
/// horas e os minutos inteiros; os segundos que sobram nao aparecem.
pub proof fn lei_duracao(d: nat, h: nat, m: nat, x: nat)
    requires
        h < 24,
        m < 60,
        x < 60,
    ensures
        dur_h_spec(86400 * d + 3600 * h + 60 * m + x) == if d > 0 {
            texto::decimal(d) + "d "@ + texto::decimal2(h) + "h"@
        } else {
            texto::decimal2(h) + "h "@ + texto::decimal2(m) + "m"@
        },
{
    let r: nat = 3600 * h + 60 * m + x;
    let s: nat = 86400 * d + r;
    assert(r < 86400);
    assert(s / 86400 == d && s % 86400 == r) by (nonlinear_arith)
        requires
            s == 86400 * d + r,
            r < 86400,
    ;
    assert(r / 3600 == h && r % 3600 == 60 * m + x) by (nonlinear_arith)
        requires
            r == 3600 * h + 60 * m + x,
            m < 60,
            x < 60,
    ;
    assert((60 * m + x) / 60 == m) by (nonlinear_arith)
        requires
            x < 60,
    ;
}

/// O deslocamento do fuso escrito como `date +%z` o escreve, sinal, duas
/// casas de hora e duas de minuto, e lido como esse numero de segundos.
pub proof fn lei_fuso(negativo: bool, h: nat, m: nat)
    requires
        h < 100,
        m < 100,
    ensures
        desloc_spec(seq![if negativo { '-' } else { '+' }] + texto::decimal2(h) + texto::decimal2(m))
            == (if negativo {
            -1int
        } else {
            1int
        }) * (h * 3600 + m * 60),
{
    lema_decimal2(h);
    lema_decimal2(m);
    let sg = if negativo {
        '-'
    } else {
        '+'
    };
    let t = seq![sg] + texto::decimal2(h) + texto::decimal2(m);
    assert(t =~= seq![sg, texto::digito(h / 10), texto::digito(h % 10), texto::digito(m / 10), texto::digito(m % 10)]);
    ui::lema_digito(h / 10);
    ui::lema_digito(h % 10);
    ui::lema_digito(m / 10);
    ui::lema_digito(m % 10);
    assert(!texto::espaco(t[0]));
    assert(texto::sem_espaco_ini(t) == t);
    assert(!texto::espaco(t.last()));
    assert(texto::sem_espaco_fim(t) == t);
    assert(texto::apara(t) == t);
    assert(par_i64(t[1], t[2]) == Some(h as int));
    assert(par_i64(t[3], t[4]) == Some(m as int));
}

} // verus!
