use magi::cfg::{config_de_texto, de_json, get, ClusterCfg, Config, Cor, No};
use magi::json::{numero_ou_de, texto_ou_de, Json};

fn txt(s: &str) -> Json {
    Json::Texto(s.to_string())
}

fn obj(ps: Vec<(&str, Json)>) -> Json {
    Json::Objeto(ps.into_iter().map(|(k, v)| (k.to_string(), v)).collect())
}

fn no(nome: &str) -> Json {
    obj(vec![("nome", txt(nome)), ("ord", txt("1")), ("ip", txt("10.0.0.1"))])
}

fn minimo() -> Json {
    obj(vec![("unidades", Json::Lista(vec![no("CASPER")]))])
}

#[test]
fn configuracao_com_padroes() {
    let c = de_json(&minimo(), None).ok().unwrap();
    assert_eq!(c.prometheus, "");
    assert_eq!(c.intervalo_host, 1);
    assert_eq!(c.intervalo_container, 3);
    assert_eq!(c.historico, 60);
    assert_eq!(c.prefixo_tenant, "");
    assert_eq!(c.largura_ideal, 106);
    assert_eq!(c.altura_ideal, 40);
    assert_eq!(c.sem_cadvisor.len(), 0);
    assert_eq!(c.janela_sonda, 30);
    assert_eq!(c.blocos_sonda, 30);
    assert!(c.cluster.is_none());
    assert!(!c.tem_cluster());
    assert_eq!(c.nos.len(), 1);
    let n = &c.nos[0];
    assert_eq!((n.nome.as_str(), n.ord.as_str(), n.ip.as_str()), ("CASPER", "1", "10.0.0.1"));
    assert_eq!((n.prom.as_str(), n.caixa.as_str(), n.sigla.as_str(), n.papel.as_str()), ("", "", "", ""));
}

#[test]
fn no_sem_nome_vira_interrogacao() {
    let j = obj(vec![("unidades", Json::Lista(vec![obj(vec![("ip", Json::Numero(Some(3)))]), Json::Nulo]))]);
    let c = de_json(&j, None).ok().unwrap();
    assert_eq!(c.nos.len(), 2);
    assert_eq!(c.nos[0].nome, "?");
    assert_eq!(c.nos[0].ip, "");
    assert_eq!(c.nos[1].nome, "?");
}

#[test]
fn erros_de_configuracao() {
    let e = de_json(&obj(vec![]), None).err().unwrap();
    assert_eq!(e, "configuracao sem a lista `unidades`");
    let e = de_json(&obj(vec![("unidades", txt("x"))]), None).err().unwrap();
    assert_eq!(e, "configuracao sem a lista `unidades`");
    let e = de_json(&Json::Lista(vec![]), None).err().unwrap();
    assert_eq!(e, "configuracao sem a lista `unidades`");
    let e = de_json(&obj(vec![("unidades", Json::Lista(vec![]))]), None).err().unwrap();
    assert_eq!(e, "configuracao sem nenhuma unidade");
}

#[test]
fn campos_lidos_e_variavel_de_ambiente() {
    let j = obj(vec![
        ("unidades", Json::Lista(vec![no("A"), no("B")])),
        ("prometheus", txt("http://p:9090")),
        ("intervalo_host", Json::Numero(Some(2))),
        ("intervalo_container", Json::Numero(None)),
        ("historico", Json::Numero(Some(120))),
        ("prefixo_tenant", txt("app_")),
        ("largura_ideal", Json::Numero(Some(70000))),
        ("altura_ideal", txt("50")),
        ("sem_cadvisor", Json::Lista(vec![txt("http://a"), Json::Numero(Some(1)), txt("http://b")])),
        ("janela_sonda", Json::Numero(Some(60))),
        ("blocos_sonda", Json::Numero(Some(40))),
    ]);
    let c = de_json(&j, None).ok().unwrap();
    assert_eq!(c.prometheus, "http://p:9090");
    assert_eq!(c.intervalo_host, 2);
    assert_eq!(c.intervalo_container, 3);
    assert_eq!(c.historico, 120);
    assert_eq!(c.prefixo_tenant, "app_");
    assert_eq!(c.largura_ideal, (70000u64 as u16));
    assert_eq!(c.altura_ideal, 40);
    assert_eq!(c.sem_cadvisor, vec!["http://a".to_string(), "http://b".to_string()]);
    assert!(c.sem_cadvisor("http://b"));
    assert!(!c.sem_cadvisor("http://c"));
    assert_eq!(c.janela_sonda, 60);
    assert_eq!(c.blocos_sonda, 40);
    let c = de_json(&j, Some("http://env:1".to_string())).ok().unwrap();
    assert_eq!(c.prometheus, "http://env:1");
}

#[test]
fn bloco_de_cluster() {
    let base = |cl: Json| obj(vec![("unidades", Json::Lista(vec![no("A")])), ("cluster", cl)]);
    let c = de_json(&base(obj(vec![("job_banco", txt("mysql"))])), None).ok().unwrap();
    let cl: &ClusterCfg = c.cluster.as_ref().unwrap();
    assert_eq!(cl.job_banco, "mysql");
    assert_eq!(cl.job_replica, "");
    assert_eq!(cl.job_sonda, "");
    assert_eq!(cl.label_tenant, "tenant");
    assert_eq!(cl.label_box, "box");
    assert_eq!(cl.servico_app, "");
    assert_eq!(cl.servico_banco, "");
    assert!(c.tem_cluster());

    let c = de_json(
        &base(obj(vec![
            ("job_banco", txt("db")),
            ("job_replica", txt("rep")),
            ("job_sonda", txt("blackbox")),
            ("label_tenant", txt("cliente")),
            ("label_box", txt("caixa")),
            ("servico_app", txt("app")),
            ("servico_banco", txt("db")),
        ])),
        None,
    )
    .ok()
    .unwrap();
    let cl = c.cluster.as_ref().unwrap();
    assert_eq!(
        (cl.job_replica.as_str(), cl.job_sonda.as_str(), cl.label_tenant.as_str(), cl.label_box.as_str()),
        ("rep", "blackbox", "cliente", "caixa")
    );
    assert_eq!((cl.servico_app.as_str(), cl.servico_banco.as_str()), ("app", "db"));

    // sem job_banco, ou com ele vazio, nao ha cluster
    let c = de_json(&base(obj(vec![("job_banco", txt(""))])), None).ok().unwrap();
    assert!(c.cluster.is_none());
    let c = de_json(&base(obj(vec![("job_replica", txt("rep"))])), None).ok().unwrap();
    assert!(c.cluster.is_none());
    let c = de_json(&base(txt("mysql")), None).ok().unwrap();
    assert!(c.cluster.is_none());
}

#[test]
fn campos_com_valor_padrao() {
    let j = obj(vec![("a", txt("x")), ("n", Json::Numero(Some(7)))]);
    assert_eq!(texto_ou_de(&j, "a", "p"), "x");
    assert_eq!(texto_ou_de(&j, "n", "p"), "p");
    assert_eq!(texto_ou_de(&j, "z", "p"), "p");
    assert_eq!(numero_ou_de(&j, "n", 1), 7);
    assert_eq!(numero_ou_de(&j, "a", 1), 1);
    assert_eq!(numero_ou_de(&Json::Nulo, "n", 9), 9);
    assert!(j.campo("a").como_texto().is_some());
    assert!(j.campo("zz").como_lista().is_none());
    assert_eq!(j.campo("n").como_u64(), Some(7));
}

#[test]
fn configuracao_carregada() {
    let c: Config = de_json(&minimo(), None).ok().unwrap();
    let r = get(Some(&c));
    assert_eq!(r.nos[0].nome, "CASPER");
}

#[test]
fn cores_da_paleta() {
    assert_eq!(Cor::Ambar.rgb(), (0xff, 0xb0, 0x00));
    assert_eq!(Cor::Verde.rgb(), (0x7d, 0xff, 0x7d));
    assert_eq!(Cor::Preto.rgb(), (0x0c, 0x0c, 0x0c));
    assert_eq!(Cor::VerdeArco.rgb(), (0x2f, 0x6b, 0x52));
    let _ = No {
        nome: String::new(),
        ord: String::new(),
        ip: String::new(),
        prom: String::new(),
        caixa: String::new(),
        sigla: String::new(),
        papel: String::new(),
    };
}

#[test]
fn tenants_por_prefixo_ou_servico() {
    let base = |prefixo: &str, app: Option<&str>| {
        let mut ps = vec![("unidades", Json::Lista(vec![no("A")])), ("prefixo_tenant", txt(prefixo))];
        if let Some(a) = app {
            ps.push(("cluster", obj(vec![("job_banco", txt("db")), ("servico_app", txt(a))])));
        }
        de_json(&obj(ps), None).ok().unwrap()
    };
    let cs = vec![
        ("app_loja".to_string(), String::new()),
        ("loja_app.1.abcdefghij0123456789".to_string(), "app".to_string()),
        ("mysql".to_string(), "db".to_string()),
    ];
    // no Swarm o nome ganha stack e id de task e deixa de comecar pelo prefixo
    assert_eq!(magi::coleta::tenants(&base("app_", Some("app")), &cs), 2);
    assert_eq!(magi::coleta::tenants(&base("app_", None), &cs), 1);
    assert_eq!(magi::coleta::tenants(&base("", Some("app")), &cs), 1);
    assert_eq!(magi::coleta::tenants(&base("", None), &cs), 0);
}

#[test]
fn configuracao_lida_do_texto() {
    let bruto = r#"{"unidades":[{"nome":"CASPER","ord":"1","ip":"10.0.0.1"},{"ip":7}],
        "prometheus":"http://p:9090","historico":5,"intervalo_host":-1,
        "cluster":{"job_banco":"pg","label_box":"caixa"},"sem_cadvisor":["a",1,"b"]}"#;
    let c = config_de_texto("/etc/magi.json", bruto, None).ok().unwrap();
    assert_eq!(c.nos.len(), 2);
    assert_eq!((c.nos[0].nome.as_str(), c.nos[0].ip.as_str()), ("CASPER", "10.0.0.1"));
    assert_eq!((c.nos[1].nome.as_str(), c.nos[1].ip.as_str()), ("?", ""));
    assert_eq!(c.prometheus, "http://p:9090");
    assert_eq!(c.historico, 5);
    assert_eq!(c.intervalo_host, 1);
    assert_eq!(c.sem_cadvisor, vec!["a".to_string(), "b".to_string()]);
    let k = c.cluster.as_ref().unwrap();
    assert_eq!((k.job_banco.as_str(), k.label_box.as_str(), k.label_tenant.as_str()), ("pg", "caixa", "tenant"));
    let c = config_de_texto("/etc/magi.json", bruto, Some("http://q".to_string())).ok().unwrap();
    assert_eq!(c.prometheus, "http://q");
}

#[test]
fn configuracao_que_nao_e_json() {
    let bruto = "{\"unidades\": [";
    let e = config_de_texto("/etc/magi.json", bruto, None).err().unwrap();
    let erro = serde_json::from_str::<serde_json::Value>(bruto).unwrap_err();
    assert_eq!(e, format!("{}: {}", "/etc/magi.json", erro));
    assert!(e.starts_with("/etc/magi.json: EOF while parsing"));
    let e = config_de_texto("c.json", "", None).err().unwrap();
    assert!(e.starts_with("c.json: EOF while parsing"));
    // JSON valido, mas sem o que a configuracao pede
    assert_eq!(config_de_texto("c.json", "{}", None).err().unwrap(), "configuracao sem a lista `unidades`");
    assert_eq!(
        config_de_texto("c.json", "{\"unidades\":[]}", None).err().unwrap(),
        "configuracao sem nenhuma unidade"
    );
}
