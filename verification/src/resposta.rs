//! O que se le das respostas da API HTTP do Prometheus: o corpo e lido como
//! JSON e dele saem a lista `data.result`, os rotulos de texto de cada serie
//! e o texto de cada valor. Corpo que nao e JSON nao rende nada. Ler o texto
//! como numero fica com quem chama.
use vstd::prelude::*;

use crate::coleta::Rotulos;
use crate::json::{self, Json};

verus! {

/// `valor[i]`: o item da lista, ou nulo quando nao ha item ou o valor nao e
/// lista.
pub open spec fn item_spec(j: Json, i: int) -> Json {
    match j {
        Json::Lista(v) => if 0 <= i < v.len() {
            v@[i]
        } else {
            Json::Nulo
        },
        _ => Json::Nulo,
    }
}

pub fn item(j: &Json, i: usize) -> (r: &Json)
    ensures
        *r == item_spec(*j, i as int),
{
    match j {
        Json::Lista(v) => if i < v.len() {
            &v[i]
        } else {
            &Json::Nulo
        },
        _ => &Json::Nulo,
    }
}

/// `data.result` como lista, ou vazia.
pub open spec fn resultado(j: Json) -> Seq<Json> {
    match json::como_lista(json::campo_spec(json::campo_spec(j, "data"@), "result"@)) {
        Some(l) => l,
        None => Seq::empty(),
    }
}

fn resultado_de(j: &Json) -> (r: Option<&Vec<Json>>)
    ensures
        match r {
            Some(l) => l@ == resultado(*j),
            None => resultado(*j) == Seq::<Json>::empty(),
        },
{
    j.campo("data").campo("result").como_lista()
}

/// Os pares de um objeto cujo valor e texto, na ordem.
pub open spec fn pares_texto(ps: Seq<(String, Json)>) -> Seq<(Seq<char>, Seq<char>)>
    decreases ps.len(),
{
    if ps.len() == 0 {
        Seq::empty()
    } else {
        let antes = pares_texto(ps.drop_last());
        match json::como_texto(ps.last().1) {
            Some(t) => antes.push((ps.last().0@, t)),
            None => antes,
        }
    }
}

/// Os rotulos de uma serie: os campos de texto do objeto `metric`.
pub open spec fn rotulos_spec(m: Json) -> Seq<(Seq<char>, Seq<char>)> {
    match m {
        Json::Objeto(ps) => pares_texto(ps@),
        _ => Seq::empty(),
    }
}

/// Os rotulos de texto de um objeto JSON, como `Rotulos`.
pub fn rotulos_de(m: &Json) -> (r: Rotulos)
    ensures
        r.vista() == rotulos_spec(*m),
{
    let mut r = Rotulos::novo();
    match m {
        Json::Objeto(ps) => {
            let mut i: usize = 0;
            assert(ps@.take(0) =~= Seq::<(String, Json)>::empty());
            while i < ps.len()
                invariant
                    i <= ps.len(),
                    r.vista() == pares_texto(ps@.take(i as int)),
                decreases ps.len() - i,
            {
                assert(ps@.take(i + 1).drop_last() =~= ps@.take(i as int));
                assert(ps@.take(i + 1).last() == ps@[i as int]);
                match ps[i].1.como_texto() {
                    Some(t) => {
                        let k = ps[i].0.clone();
                        let v = t.clone();
                        r.insere(k, v);
                    },
                    None => {},
                }
                i = i + 1;
            }
            assert(ps@.take(ps.len() as int) =~= ps@);
        },
        _ => {},
    }
    r
}

/// O texto do valor de uma serie de consulta instantanea: `value[1]`.
pub open spec fn valor_spec(s: Json) -> Option<Seq<char>> {
    json::como_texto(item_spec(json::campo_spec(s, "value"@), 1))
}

/// Cada serie da consulta instantanea que traz o valor em texto: os rotulos
/// e o texto do valor, na ordem da resposta.
pub open spec fn series_spec(l: Seq<Json>) -> Seq<(Seq<(Seq<char>, Seq<char>)>, Seq<char>)>
    decreases l.len(),
{
    if l.len() == 0 {
        Seq::empty()
    } else {
        let antes = series_spec(l.drop_last());
        match valor_spec(l.last()) {
            Some(v) => antes.push((rotulos_spec(json::campo_spec(l.last(), "metric"@)), v)),
            None => antes,
        }
    }
}

/// As series de uma resposta de `/api/v1/query`; ver `series_spec`.
pub fn series_da_resposta(j: &Json) -> (r: Vec<(Rotulos, String)>)
    ensures
        r@.map_values(|p: (Rotulos, String)| (p.0.vista(), p.1@)) == series_spec(resultado(*j)),
{
    match resultado_de(j) {
        Some(l) => series_de(l),
        None => {
            let r: Vec<(Rotulos, String)> = Vec::new();
            assert(r@.map_values(|p: (Rotulos, String)| (p.0.vista(), p.1@)) =~= Seq::<
                (Seq<(Seq<char>, Seq<char>)>, Seq<char>),
            >::empty());
            r
        },
    }
}

fn series_de(l: &Vec<Json>) -> (r: Vec<(Rotulos, String)>)
    ensures
        r@.map_values(|p: (Rotulos, String)| (p.0.vista(), p.1@)) == series_spec(l@),
{
    let mut r: Vec<(Rotulos, String)> = Vec::new();
    let mut i: usize = 0;
    assert(l@.take(0) =~= Seq::<Json>::empty());
    while i < l.len()
        invariant
            i <= l.len(),
            r@.map_values(|p: (Rotulos, String)| (p.0.vista(), p.1@)) == series_spec(l@.take(i as int)),
        decreases l.len() - i,
    {
        let ghost antes = r@;
        assert(l@.take(i + 1).drop_last() =~= l@.take(i as int));
        assert(l@.take(i + 1).last() == l@[i as int]);
        let s = &l[i];
        match item(s.campo("value"), 1).como_texto() {
            Some(v) => {
                let rot = rotulos_de(s.campo("metric"));
                let t = v.clone();
                r.push((rot, t));
                assert(r@.map_values(|p: (Rotulos, String)| (p.0.vista(), p.1@)) =~= antes.map_values(
                    |p: (Rotulos, String)| (p.0.vista(), p.1@),
                ).push((rotulos_spec(json::campo_spec(l@[i as int], "metric"@)), t@)));
            },
            None => {},
        }
        i = i + 1;
    }
    assert(l@.take(l.len() as int) =~= l@);
    r
}

/// Cada serie da consulta instantanea com valor em texto, pelo nome do
/// container: o rotulo `name` (ou `?`) e o texto do valor.
pub open spec fn nomes_spec(l: Seq<Json>) -> Seq<(Seq<char>, Seq<char>)>
    decreases l.len(),
{
    if l.len() == 0 {
        Seq::empty()
    } else {
        let antes = nomes_spec(l.drop_last());
        match valor_spec(l.last()) {
            Some(v) => antes.push((json::texto_ou(json::campo_spec(l.last(), "metric"@), "name"@, "?"@), v)),
            None => antes,
        }
    }
}

/// Os valores por container de uma resposta de `/api/v1/query`; ver
/// `nomes_spec`.
pub fn nomes_da_resposta(j: &Json) -> (r: Vec<(String, String)>)
    ensures
        r@.map_values(|p: (String, String)| (p.0@, p.1@)) == nomes_spec(resultado(*j)),
{
    match resultado_de(j) {
        Some(l) => nomes_de(l),
        None => {
            let r: Vec<(String, String)> = Vec::new();
            assert(r@.map_values(|p: (String, String)| (p.0@, p.1@)) =~= Seq::<(Seq<char>, Seq<char>)>::empty());
            r
        },
    }
}

fn nomes_de(l: &Vec<Json>) -> (r: Vec<(String, String)>)
    ensures
        r@.map_values(|p: (String, String)| (p.0@, p.1@)) == nomes_spec(l@),
{
    let mut r: Vec<(String, String)> = Vec::new();
    let mut i: usize = 0;
    assert(l@.take(0) =~= Seq::<Json>::empty());
    while i < l.len()
        invariant
            i <= l.len(),
            r@.map_values(|p: (String, String)| (p.0@, p.1@)) == nomes_spec(l@.take(i as int)),
        decreases l.len() - i,
    {
        let ghost antes = r@;
        assert(l@.take(i + 1).drop_last() =~= l@.take(i as int));
        assert(l@.take(i + 1).last() == l@[i as int]);
        let s = &l[i];
        match item(s.campo("value"), 1).como_texto() {
            Some(v) => {
                let nome = json::texto_ou_de(s.campo("metric"), "name", "?");
                let t = v.clone();
                r.push((nome, t));
                assert(r@.map_values(|p: (String, String)| (p.0@, p.1@)) =~= antes.map_values(
                    |p: (String, String)| (p.0@, p.1@),
                ).push((json::texto_ou(json::campo_spec(l@[i as int], "metric"@), "name"@, "?"@), t@)));
            },
            None => {},
        }
        i = i + 1;
    }
    assert(l@.take(l.len() as int) =~= l@);
    r
}

/// Os textos `p[1]` de cada ponto `p` de uma lista de pontos, pulando os
/// que nao trazem texto ali.
pub open spec fn textos_dos_pontos(ps: Seq<Json>) -> Seq<Seq<char>>
    decreases ps.len(),
{
    if ps.len() == 0 {
        Seq::empty()
    } else {
        let antes = textos_dos_pontos(ps.drop_last());
        match json::como_texto(item_spec(ps.last(), 1)) {
            Some(t) => antes.push(t),
            None => antes,
        }
    }
}

/// Os pontos `values` de uma serie de consulta de intervalo.
pub open spec fn pontos_spec(s: Json) -> Seq<Seq<char>> {
    match json::como_lista(json::campo_spec(s, "values"@)) {
        Some(ps) => textos_dos_pontos(ps),
        None => Seq::empty(),
    }
}

fn pontos_de(s: &Json) -> (r: Vec<String>)
    ensures
        crate::texto::vistas(r@) == pontos_spec(*s),
{
    let mut r: Vec<String> = Vec::new();
    match s.campo("values").como_lista() {
        Some(ps) => {
            let mut i: usize = 0;
            assert(ps@.take(0) =~= Seq::<Json>::empty());
            while i < ps.len()
                invariant
                    i <= ps.len(),
                    crate::texto::vistas(r@) == textos_dos_pontos(ps@.take(i as int)),
                decreases ps.len() - i,
            {
                let ghost antes = crate::texto::vistas(r@);
                assert(ps@.take(i + 1).drop_last() =~= ps@.take(i as int));
                assert(ps@.take(i + 1).last() == ps@[i as int]);
                match item(&ps[i], 1).como_texto() {
                    Some(t) => {
                        let c = t.clone();
                        r.push(c);
                        assert(crate::texto::vistas(r@) =~= antes.push(c@));
                    },
                    None => {},
                }
                i = i + 1;
            }
            assert(ps@.take(ps.len() as int) =~= ps@);
        },
        None => {
            assert(crate::texto::vistas(r@) =~= Seq::<Seq<char>>::empty());
        },
    }
    r
}

/// Os pontos da primeira serie de uma resposta de `/api/v1/query_range`, ou
/// nenhum.
pub fn pontos_da_primeira(j: &Json) -> (r: Vec<String>)
    ensures
        crate::texto::vistas(r@) == (if resultado(*j).len() > 0 {
            pontos_spec(resultado(*j)[0])
        } else {
            Seq::empty()
        }),
{
    if let Some(l) = resultado_de(j) {
        if l.len() > 0 {
            return pontos_de(&l[0]);
        }
    }
    let r: Vec<String> = Vec::new();
    assert(crate::texto::vistas(r@) =~= Seq::<Seq<char>>::empty());
    r
}

/// Cada serie de uma resposta de `/api/v1/query_range`: os rotulos e os
/// textos dos pontos.
pub open spec fn series_intervalo_spec(l: Seq<Json>) -> Seq<(Seq<(Seq<char>, Seq<char>)>, Seq<Seq<char>>)> {
    l.map_values(|s: Json| (rotulos_spec(json::campo_spec(s, "metric"@)), pontos_spec(s)))
}

pub fn series_do_intervalo(j: &Json) -> (r: Vec<(Rotulos, Vec<String>)>)
    ensures
        r@.map_values(|p: (Rotulos, Vec<String>)| (p.0.vista(), crate::texto::vistas(p.1@)))
            == series_intervalo_spec(resultado(*j)),
{
    match resultado_de(j) {
        Some(l) => series_intervalo_de(l),
        None => {
            let r: Vec<(Rotulos, Vec<String>)> = Vec::new();
            assert(r@.map_values(|p: (Rotulos, Vec<String>)| (p.0.vista(), crate::texto::vistas(p.1@)))
                =~= series_intervalo_spec(Seq::<Json>::empty()));
            r
        },
    }
}

fn series_intervalo_de(l: &Vec<Json>) -> (r: Vec<(Rotulos, Vec<String>)>)
    ensures
        r@.map_values(|p: (Rotulos, Vec<String>)| (p.0.vista(), crate::texto::vistas(p.1@)))
            == series_intervalo_spec(l@),
{
    let mut r: Vec<(Rotulos, Vec<String>)> = Vec::new();
    let mut i: usize = 0;
    while i < l.len()
        invariant
            i <= l.len(),
            r@.map_values(|p: (Rotulos, Vec<String>)| (p.0.vista(), crate::texto::vistas(p.1@)))
                == series_intervalo_spec(l@.take(i as int)),
        decreases l.len() - i,
    {
        let ghost antes = r@;
        let s = &l[i];
        let rot = rotulos_de(s.campo("metric"));
        let ps = pontos_de(s);
        let ghost novo = (rot.vista(), crate::texto::vistas(ps@));
        r.push((rot, ps));
        assert(r@.map_values(|p: (Rotulos, Vec<String>)| (p.0.vista(), crate::texto::vistas(p.1@)))
            =~= antes.map_values(|p: (Rotulos, Vec<String>)| (p.0.vista(), crate::texto::vistas(p.1@))).push(
            novo,
        ));
        assert(series_intervalo_spec(l@.take(i + 1)) =~= series_intervalo_spec(l@.take(i as int)).push(
            novo,
        ));
        i = i + 1;
    }
    assert(l@.take(l.len() as int) =~= l@);
    r
}

/// As series do corpo de uma resposta de `/api/v1/query`: as de
/// `series_da_resposta` quando o corpo e JSON, nenhuma quando nao e.
pub fn series_do_texto(corpo: &str) -> (r: Vec<(Rotulos, String)>)
    ensures
        match json::json_lido(corpo@) {
            Ok(j) => r@.map_values(|p: (Rotulos, String)| (p.0.vista(), p.1@)) == series_spec(
                resultado(j),
            ),
            Err(_) => r.len() == 0,
        },
{
    match json::le_json(corpo) {
        Ok(j) => series_da_resposta(&j),
        Err(_) => Vec::new(),
    }
}

/// Os pares nome e texto do valor do corpo de uma resposta de
/// `/api/v1/query`: os de `nomes_da_resposta` quando o corpo e JSON, nenhum
/// quando nao e.
pub fn nomes_do_texto(corpo: &str) -> (r: Vec<(String, String)>)
    ensures
        match json::json_lido(corpo@) {
            Ok(j) => r@.map_values(|p: (String, String)| (p.0@, p.1@)) == nomes_spec(
                resultado(j),
            ),
            Err(_) => r.len() == 0,
        },
{
    match json::le_json(corpo) {
        Ok(j) => nomes_da_resposta(&j),
        Err(_) => Vec::new(),
    }
}

/// Os pontos da primeira serie do corpo de uma resposta de
/// `/api/v1/query_range`: os de `pontos_da_primeira` quando o corpo e JSON,
/// nenhum quando nao e.
pub fn pontos_do_texto(corpo: &str) -> (r: Vec<String>)
    ensures
        match json::json_lido(corpo@) {
            Ok(j) => crate::texto::vistas(r@) == (if resultado(j).len() > 0 {
                pontos_spec(resultado(j)[0])
            } else {
                Seq::empty()
            }),
            Err(_) => r.len() == 0,
        },
{
    match json::le_json(corpo) {
        Ok(j) => pontos_da_primeira(&j),
        Err(_) => Vec::new(),
    }
}

/// As series do corpo de uma resposta de `/api/v1/query_range`: as de
/// `series_do_intervalo` quando o corpo e JSON, nenhuma quando nao e.
pub fn series_intervalo_do_texto(corpo: &str) -> (r: Vec<(Rotulos, Vec<String>)>)
    ensures
        match json::json_lido(corpo@) {
            Ok(j) => r@.map_values(
                |p: (Rotulos, Vec<String>)| (p.0.vista(), crate::texto::vistas(p.1@)),
            ) == series_intervalo_spec(resultado(j)),
            Err(_) => r.len() == 0,
        },
{
    match json::le_json(corpo) {
        Ok(j) => series_do_intervalo(&j),
        Err(_) => Vec::new(),
    }
}

} // verus!

verus! {

/// As series da consulta instantanea sao, na ordem da resposta, as que
/// trazem o valor em texto, cada uma com os seus rotulos de texto e esse
/// valor; as outras ficam de fora.
pub proof fn lei_series(l: Seq<Json>)
    ensures
        series_spec(l) == l.filter(|s: Json| valor_spec(s) is Some).map_values(
            |s: Json| (rotulos_spec(json::campo_spec(s, "metric"@)), valor_spec(s).unwrap()),
        ),
        nomes_spec(l) == l.filter(|s: Json| valor_spec(s) is Some).map_values(
            |s: Json|
                (json::texto_ou(json::campo_spec(s, "metric"@), "name"@, "?"@), valor_spec(s).unwrap()),
        ),
    decreases l.len(),
{
    reveal(Seq::filter);
    if l.len() > 0 {
        lei_series(l.drop_last());
        let f = |s: Json| valor_spec(s) is Some;
        let d = l.drop_last().filter(f);
        if valor_spec(l.last()) is Some {
            assert(l.filter(f) == d.push(l.last()));
            assert(d.push(l.last()).map_values(
                |s: Json| (rotulos_spec(json::campo_spec(s, "metric"@)), valor_spec(s).unwrap()),
            ) =~= d.map_values(
                |s: Json| (rotulos_spec(json::campo_spec(s, "metric"@)), valor_spec(s).unwrap()),
            ).push((rotulos_spec(json::campo_spec(l.last(), "metric"@)), valor_spec(l.last()).unwrap())));
            assert(d.push(l.last()).map_values(
                |s: Json|
                    (json::texto_ou(json::campo_spec(s, "metric"@), "name"@, "?"@), valor_spec(s).unwrap()),
            ) =~= d.map_values(
                |s: Json|
                    (json::texto_ou(json::campo_spec(s, "metric"@), "name"@, "?"@), valor_spec(s).unwrap()),
            ).push(
                (
                    json::texto_ou(json::campo_spec(l.last(), "metric"@), "name"@, "?"@),
                    valor_spec(l.last()).unwrap(),
                ),
            ));
        } else {
            assert(l.filter(f) == d);
        }
    }
}

/// Os pontos de uma serie de intervalo sao, em ordem, os textos `p[1]` dos
/// pontos que os trazem; os outros ficam de fora.
pub proof fn lei_pontos(ps: Seq<Json>)
    ensures
        textos_dos_pontos(ps) == ps.filter(|p: Json| json::como_texto(item_spec(p, 1)) is Some).map_values(
            |p: Json| json::como_texto(item_spec(p, 1)).unwrap(),
        ),
    decreases ps.len(),
{
    reveal(Seq::filter);
    if ps.len() > 0 {
        lei_pontos(ps.drop_last());
        let f = |p: Json| json::como_texto(item_spec(p, 1)) is Some;
        let d = ps.drop_last().filter(f);
        if f(ps.last()) {
            assert(ps.filter(f) == d.push(ps.last()));
            assert(d.push(ps.last()).map_values(|p: Json| json::como_texto(item_spec(p, 1)).unwrap())
                =~= d.map_values(|p: Json| json::como_texto(item_spec(p, 1)).unwrap()).push(
                json::como_texto(item_spec(ps.last(), 1)).unwrap(),
            ));
        } else {
            assert(ps.filter(f) == d);
        }
    }
}

} // verus!
