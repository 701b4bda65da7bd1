//! Um documento JSON, lido pelo serde_json, com o que a configuracao e as
//! respostas do Prometheus precisam dele.
use vstd::prelude::*;

use crate::texto;

verus! {

/// Valor JSON. Numero guarda o valor como `u64` quando ele e um inteiro nao
/// negativo que cabe ali, e nada nos outros casos. Num objeto as chaves nao
/// se repetem.
pub enum Json {
    Nulo,
    Booleano(bool),
    Numero(Option<u64>),
    Texto(String),
    Lista(Vec<Json>),
    Objeto(Vec<(String, Json)>),
}

/// `serde_json::Value`, o documento como o serde_json o devolve. Aqui so e
/// atravessado: o que a biblioteca le dele passa antes para `Json`.
#[verifier::external_type_specification]
#[verifier::external_body]
pub struct ExValor(serde_json::Value);

/// O que `serde_json::from_str::<serde_json::Value>` da para um texto, ja em
/// `Json`: o documento, ou o texto do erro.
pub uninterp spec fn json_lido(texto: Seq<char>) -> Result<Json, Seq<char>>;

/// Le um texto JSON com `serde_json::from_str::<serde_json::Value>`. O
/// documento lido passa para `Json` variante a variante (o numero fica com o
/// que `Number::as_u64` da dele) e o erro vira o seu `to_string`. O contrato
/// so afirma que o resultado e funcao do texto, `json_lido`: o mesmo texto da
/// sempre o mesmo documento ou o mesmo erro. Que textos a gramatica do JSON
/// aceita, e o que cada um vale, nao esta dito aqui.
#[verifier::external_body]
pub(crate) fn le_json(texto: &str) -> (r: Result<Json, String>)
    ensures
        match r {
            Ok(j) => json_lido(texto@) == Ok::<Json, Seq<char>>(j),
            Err(e) => json_lido(texto@) == Err::<Json, Seq<char>>(e@),
        },
{
    match serde_json::from_str::<serde_json::Value>(texto) {
        Ok(v) => Ok(json_de_valor(&v)),
        Err(e) => Err(e.to_string()),
    }
}

/// A passagem de `serde_json::Value` para `Json` que `le_json` usa, um
/// valor por valor e na ordem em que o serde_json os entrega. Sem contrato:
/// o que ela da so chega a biblioteca pelo contrato de `le_json`.
#[verifier::external_body]
fn json_de_valor(v: &serde_json::Value) -> Json {
    match v {
        serde_json::Value::Null => Json::Nulo,
        serde_json::Value::Bool(b) => Json::Booleano(*b),
        serde_json::Value::Number(n) => Json::Numero(n.as_u64()),
        serde_json::Value::String(s) => Json::Texto(s.clone()),
        serde_json::Value::Array(a) => Json::Lista(a.iter().map(json_de_valor).collect()),
        serde_json::Value::Object(m) => Json::Objeto(
            m.iter().map(|(k, x)| (k.clone(), json_de_valor(x))).collect(),
        ),
    }
}

/// O valor do primeiro par com a chave, a partir de `i`.
pub open spec fn busca_par(ps: Seq<(String, Json)>, chave: Seq<char>, i: int) -> Json
    decreases ps.len() - i,
{
    if i < 0 || i >= ps.len() {
        Json::Nulo
    } else if ps[i].0@ == chave {
        ps[i].1
    } else {
        busca_par(ps, chave, i + 1)
    }
}

/// `valor[chave]`: o campo do objeto, ou nulo quando nao ha campo ou o valor
/// nao e objeto.
pub open spec fn campo_spec(j: Json, chave: Seq<char>) -> Json {
    match j {
        Json::Objeto(ps) => busca_par(ps@, chave, 0),
        _ => Json::Nulo,
    }
}

/// `as_str`.
pub open spec fn como_texto(j: Json) -> Option<Seq<char>> {
    match j {
        Json::Texto(s) => Some(s@),
        _ => None,
    }
}

/// `as_u64`.
pub open spec fn como_u64(j: Json) -> Option<u64> {
    match j {
        Json::Numero(n) => n,
        _ => None,
    }
}

/// `as_array`.
pub open spec fn como_lista(j: Json) -> Option<Seq<Json>> {
    match j {
        Json::Lista(v) => Some(v@),
        _ => None,
    }
}

impl Json {
    /// `valor[chave]`.
    pub fn campo(&self, chave: &str) -> (r: &Json)
        ensures
            *r == campo_spec(*self, chave@),
    {
        match self {
            Json::Objeto(ps) => {
                let mut i: usize = 0;
                while i < ps.len()
                    invariant
                        i <= ps.len(),
                        busca_par(ps@, chave@, i as int) == busca_par(ps@, chave@, 0),
                        campo_spec(*self, chave@) == busca_par(ps@, chave@, 0),
                    decreases ps.len() - i,
                {
                    if texto::str_igual(ps[i].0.as_str(), chave) {
                        return &ps[i].1;
                    }
                    i = i + 1;
                }
                &Json::Nulo
            },
            _ => &Json::Nulo,
        }
    }

    pub fn como_texto(&self) -> (r: Option<&String>)
        ensures
            match r {
                Some(s) => como_texto(*self) == Some(s@),
                None => como_texto(*self) is None,
            },
    {
        match self {
            Json::Texto(s) => Some(s),
            _ => None,
        }
    }

    pub fn como_u64(&self) -> (r: Option<u64>)
        ensures
            r == como_u64(*self),
    {
        match self {
            Json::Numero(n) => *n,
            _ => None,
        }
    }

    pub fn como_lista(&self) -> (r: Option<&Vec<Json>>)
        ensures
            match r {
                Some(v) => como_lista(*self) == Some(v@),
                None => como_lista(*self) is None,
            },
    {
        match self {
            Json::Lista(v) => Some(v),
            _ => None,
        }
    }
}

/// `valor[chave].as_str().unwrap_or(padrao)`.
pub open spec fn texto_ou(j: Json, chave: Seq<char>, padrao: Seq<char>) -> Seq<char> {
    match como_texto(campo_spec(j, chave)) {
        Some(s) => s,
        None => padrao,
    }
}

/// `valor[chave].as_u64().unwrap_or(padrao)`.
pub open spec fn numero_ou(j: Json, chave: Seq<char>, padrao: u64) -> u64 {
    match como_u64(campo_spec(j, chave)) {
        Some(n) => n,
        None => padrao,
    }
}

pub fn texto_ou_de(j: &Json, chave: &str, padrao: &str) -> (r: String)
    ensures
        r@ == texto_ou(*j, chave@, padrao@),
{
    match j.campo(chave).como_texto() {
        Some(s) => s.clone(),
        None => padrao.to_owned(),
    }
}

pub fn numero_ou_de(j: &Json, chave: &str, padrao: u64) -> (r: u64)
    ensures
        r == numero_ou(*j, chave@, padrao),
{
    match j.campo(chave).como_u64() {
        Some(n) => n,
        None => padrao,
    }
}

} // verus!

verus! {

/// O campo de um objeto e o valor do primeiro par com essa chave; sem par
/// com ela, ou num valor que nao e objeto, e nulo.
pub proof fn lei_campo(ps: Seq<(String, Json)>, chave: Seq<char>, k: int)
    requires
        0 <= k <= ps.len(),
        forall|i: int| 0 <= i < k ==> (#[trigger] ps[i]).0@ != chave,
        k < ps.len() ==> ps[k].0@ == chave,
    ensures
        busca_par(ps, chave, 0) == if k < ps.len() {
            ps[k].1
        } else {
            Json::Nulo
        },
{
    lema_busca_par(ps, chave, 0, k);
}

proof fn lema_busca_par(ps: Seq<(String, Json)>, chave: Seq<char>, i: int, k: int)
    requires
        0 <= i <= k <= ps.len(),
        forall|j: int| i <= j < k ==> (#[trigger] ps[j]).0@ != chave,
        k < ps.len() ==> ps[k].0@ == chave,
    ensures
        busca_par(ps, chave, i) == if k < ps.len() {
            ps[k].1
        } else {
            Json::Nulo
        },
    decreases k - i,
{
    if i < k {
        lema_busca_par(ps, chave, i + 1, k);
    }
}

} // verus!
