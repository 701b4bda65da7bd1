use magi::json::Json;
use magi::resposta::{
    item, nomes_da_resposta, nomes_do_texto, pontos_da_primeira, pontos_do_texto, series_da_resposta,
    series_do_intervalo, series_do_texto, series_intervalo_do_texto,
};

fn txt(s: &str) -> Json {
    Json::Texto(s.to_string())
}

fn obj(ps: Vec<(&str, Json)>) -> Json {
    Json::Objeto(ps.into_iter().map(|(k, v)| (k.to_string(), v)).collect())
}

fn resposta(result: Vec<Json>) -> Json {
    obj(vec![("status", txt("success")), ("data", obj(vec![("resultType", txt("vector")), ("result", Json::Lista(result))]))])
}

fn serie(metric: Json, valor: Json) -> Json {
    obj(vec![("metric", metric), ("value", Json::Lista(vec![Json::Numero(None), valor]))])
}

#[test]
fn series_da_consulta_instantanea() {
    let j = resposta(vec![
        serie(obj(vec![("tenant", txt("a")), ("box", txt("x1")), ("n", Json::Numero(Some(3)))]), txt("1")),
        serie(obj(vec![("tenant", txt("b"))]), Json::Numero(Some(1))),
        serie(Json::Nulo, txt("0.5")),
        obj(vec![("metric", obj(vec![]))]),
    ]);
    let s = series_da_resposta(&j);
    assert_eq!(s.len(), 2);
    assert_eq!(s[0].0.pares, vec![("tenant".to_string(), "a".to_string()), ("box".to_string(), "x1".to_string())]);
    assert_eq!(s[0].1, "1");
    assert_eq!(s[1].0.pares.len(), 0);
    assert_eq!(s[1].1, "0.5");
    assert_eq!(series_da_resposta(&obj(vec![("data", obj(vec![]))])).len(), 0);
    assert_eq!(series_da_resposta(&Json::Nulo).len(), 0);
}

#[test]
fn valores_por_nome_de_container() {
    let j = resposta(vec![
        serie(obj(vec![("name", txt("web"))]), txt("2.5")),
        serie(obj(vec![("id", txt("x"))]), txt("7")),
        serie(obj(vec![("name", Json::Numero(Some(1)))]), txt("8")),
        serie(obj(vec![("name", txt("db"))]), Json::Nulo),
    ]);
    assert_eq!(
        nomes_da_resposta(&j),
        vec![("web".to_string(), "2.5".to_string()), ("?".to_string(), "7".to_string()), ("?".to_string(), "8".to_string())]
    );
}

#[test]
fn pontos_das_consultas_de_intervalo() {
    let ponto = |v: Json| Json::Lista(vec![Json::Numero(Some(1700000000)), v]);
    let s1 = obj(vec![
        ("metric", obj(vec![("instance", txt("a"))])),
        ("values", Json::Lista(vec![ponto(txt("1")), ponto(Json::Nulo), Json::Nulo, ponto(txt("0"))])),
    ]);
    let s2 = obj(vec![("metric", obj(vec![("instance", txt("b"))])), ("values", txt("x"))]);
    let j = resposta(vec![s1, s2]);
    assert_eq!(pontos_da_primeira(&j), vec!["1".to_string(), "0".to_string()]);
    assert_eq!(pontos_da_primeira(&resposta(vec![])), Vec::<String>::new());
    let si = series_do_intervalo(&j);
    assert_eq!(si.len(), 2);
    assert_eq!(si[0].0.rotulo("instance"), "a");
    assert_eq!(si[0].1, vec!["1".to_string(), "0".to_string()]);
    assert_eq!(si[1].0.rotulo("instance"), "b");
    assert_eq!(si[1].1.len(), 0);
}

#[test]
fn item_de_lista() {
    let l = Json::Lista(vec![txt("a"), txt("b")]);
    assert!(matches!(item(&l, 1), Json::Texto(s) if s == "b"));
    assert!(matches!(item(&l, 2), Json::Nulo));
    assert!(matches!(item(&txt("a"), 0), Json::Nulo));
}

#[test]
fn corpo_de_consulta_instantanea() {
    let corpo = r#"{"status":"success","data":{"resultType":"vector","result":[
        {"metric":{"tenant":"a","n":3,"name":"web"},"value":[1700000000.5,"1"]},
        {"metric":{},"value":[1,2]},
        {"metric":{"box":"x1"},"value":[1,"0.5"]}]}}"#;
    let s = series_do_texto(corpo);
    assert_eq!(s.len(), 2);
    assert_eq!(s[0].0.rotulo("tenant"), "a");
    assert_eq!(s[0].0.rotulo("name"), "web");
    assert_eq!(s[0].0.rotulo("n"), "");
    assert_eq!(s[0].1, "1");
    assert_eq!(s[1].0.pares, vec![("box".to_string(), "x1".to_string())]);
    assert_eq!(s[1].1, "0.5");
    assert_eq!(
        nomes_do_texto(corpo),
        vec![("web".to_string(), "1".to_string()), ("?".to_string(), "0.5".to_string())]
    );
}

#[test]
fn corpo_de_consulta_de_intervalo() {
    let corpo = r#"{"data":{"result":[
        {"metric":{"instance":"a"},"values":[[1,"1"],[2,null],[3,"0"]]},
        {"metric":{"instance":"b"},"values":[]}]}}"#;
    assert_eq!(pontos_do_texto(corpo), vec!["1".to_string(), "0".to_string()]);
    let si = series_intervalo_do_texto(corpo);
    assert_eq!(si.len(), 2);
    assert_eq!(si[0].0.rotulo("instance"), "a");
    assert_eq!(si[0].1, vec!["1".to_string(), "0".to_string()]);
    assert_eq!(si[1].0.rotulo("instance"), "b");
    assert_eq!(si[1].1.len(), 0);
}

#[test]
fn corpo_que_nao_e_json_nao_rende() {
    for corpo in ["", "not json", "{\"data\":", "[1,2", "{\"data\":{\"result\":[]}} x"] {
        assert_eq!(series_do_texto(corpo).len(), 0);
        assert_eq!(nomes_do_texto(corpo).len(), 0);
        assert_eq!(pontos_do_texto(corpo).len(), 0);
        assert_eq!(series_intervalo_do_texto(corpo).len(), 0);
    }
}
