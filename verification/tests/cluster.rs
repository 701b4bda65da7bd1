use magi::cfg::{ClusterCfg, No};
use magi::cluster::{
    buscar, consulta, historicos, largura_natural, larguras_tenants, passo_sonda, sigla_da_caixa,
    uso_por, valor_por, Coleta, Serie,
};
use magi::coleta::Rotulos;
use magi::swarm::{contagem_swarm, minutos_por_bloco, ordem_por_no, veredito, Veredito};
use magi::coleta::motivo_sem_containers;

fn rot(pares: &[(&str, &str)]) -> Rotulos {
    let mut r = Rotulos::novo();
    for (k, v) in pares {
        r.insere(k.to_string(), v.to_string());
    }
    r
}

fn serie<V>(pares: &[(&str, &str)], valor: V) -> Serie<V> {
    Serie { rotulos: rot(pares), valor }
}

fn no(nome: &str, caixa: &str, sigla: &str) -> No {
    No {
        nome: nome.to_string(),
        ord: "1".to_string(),
        ip: String::new(),
        prom: String::new(),
        caixa: caixa.to_string(),
        sigla: sigla.to_string(),
        papel: String::new(),
    }
}

fn cfg_cluster() -> ClusterCfg {
    ClusterCfg {
        job_banco: "mysql".to_string(),
        job_replica: "rep".to_string(),
        job_sonda: "blackbox".to_string(),
        label_tenant: "tenant".to_string(),
        label_box: "box".to_string(),
        servico_app: "app".to_string(),
        servico_banco: "db".to_string(),
    }
}

#[test]
fn sigla_pelo_no_da_caixa() {
    let nos = vec![no("BALTHASAR", "box1", ""), no("CASPER", "box2", "CAS"), no("X", "", "XX"), no("MELCHIOR", "box2", "MEL")];
    assert_eq!(sigla_da_caixa("box1", &nos), "BAL");
    assert_eq!(sigla_da_caixa("box2", &nos), "CAS");
    assert_eq!(sigla_da_caixa("", &nos), "?");
    assert_eq!(sigla_da_caixa("box9", &nos), "?");
    let nos = vec![no("AB", "c", "")];
    assert_eq!(sigla_da_caixa("c", &nos), "AB");
}

#[test]
fn larguras_da_tabela_de_tenants() {
    assert_eq!(larguras_tenants(30), vec![13, 3, 4, 4, 5, 7, 5, 7, 5, 8, 30]);
    assert_eq!(larguras_tenants(5), vec![13, 3, 4, 4, 5, 7, 5, 7, 5, 8, 19]);
    assert_eq!(largura_natural(&larguras_tenants(19)), 80 + 22 + 12);
    assert_eq!(largura_natural(&vec![]), 1);
    assert_eq!(largura_natural(&vec![3]), 7);
}

#[test]
fn consultas_promql() {
    assert_eq!(consulta("mysql_up", "db"), "mysql_up{job=\"db\"}");
    assert_eq!(consulta("probe_success", ""), "probe_success{job=\"\"}");
}

#[test]
fn passo_da_faixa() {
    assert_eq!(passo_sonda(30, 30), 60);
    assert_eq!(passo_sonda(30, 0), 1800);
    assert_eq!(passo_sonda(1, 30), 15);
    assert_eq!(passo_sonda(-5, 2), 15);
    assert_eq!(passo_sonda(60, 7), 514);
}

#[test]
fn faixas_por_tenant() {
    let s = vec![
        serie(&[("instance", "a")], vec![1.0, 0.0, 1.0]),
        serie(&[("job", "x")], vec![1.0]),
        serie(&[("instance", "b")], vec![0.5]),
        serie(&[("instance", "")], vec![0.5]),
    ];
    let h = historicos(&s, 2);
    assert_eq!(h.len(), 2);
    assert_eq!(h[0].0, "a");
    assert_eq!(h[0].1, vec![0.0, 1.0]);
    assert_eq!(h[1].0, "b");
    assert_eq!(h[1].1, vec![0.5]);
}

#[test]
fn valores_por_rotulo() {
    let s = vec![serie(&[("tenant", "a")], 1.0), serie(&[("tenant", "b")], 2.0), serie(&[("tenant", "a")], 3.0)];
    assert_eq!(valor_por(&s, "tenant", "a"), Some(3.0));
    assert_eq!(valor_por(&s, "tenant", "c"), None);
    assert_eq!(valor_por(&s, "outro", ""), Some(3.0));
    assert_eq!(s[1].rotulo("tenant"), "b");
    let u = vec![
        ("a".to_string(), "app".to_string(), 1u8),
        ("".to_string(), "app".to_string(), 2u8),
        ("a".to_string(), "app".to_string(), 3u8),
        ("b".to_string(), "cron".to_string(), 4u8),
    ];
    assert_eq!(uso_por(&u, "app", "db", "a", "app"), Some(3));
    assert_eq!(uso_por(&u, "app", "db", "", "app"), None);
    assert_eq!(uso_por(&u, "app", "db", "b", "cron"), None);
}

fn coleta() -> Coleta<f64, (f64, f64)> {
    Coleta {
        prim: vec![
            serie(&[("tenant", "b"), ("box", "box2")], 1.0),
            serie(&[("tenant", "a"), ("box", "box1")], 0.0),
            serie(&[("tenant", ""), ("box", "x")], 1.0),
            serie(&[("tenant", "c")], 1.0),
        ],
        rep_io: vec![serie(&[("tenant", "a"), ("box", "box2")], 1.0)],
        rep_sql: vec![serie(&[("tenant", "a")], 0.0)],
        rep_lag: vec![serie(&[("tenant", "a")], 3.0)],
        sonda: vec![serie(&[("instance", "b")], 1.0)],
        atraso: vec![serie(&[("instance", "b")], 0.2)],
        hist: vec!["x".to_string(), "b".to_string(), "b".to_string()],
        uso: vec![
            ("a".to_string(), "app".to_string(), (1.0, 2.0)),
            ("b".to_string(), "db".to_string(), (3.0, 4.0)),
            ("a".to_string(), "app".to_string(), (5.0, 6.0)),
        ],
    }
}

#[test]
fn uma_linha_por_tenant() {
    let c = cfg_cluster();
    let nos = vec![no("BALTHASAR", "box1", ""), no("CASPER", "box2", "CAS")];
    let ls = buscar(Some(&c), &nos, &coleta()).ok().unwrap();
    let nomes: Vec<&str> = ls.iter().map(|l| l.tenant.as_str()).collect();
    assert_eq!(nomes, vec!["a", "b", "c"]);

    let a = &ls[0];
    assert_eq!((a.no.as_str(), a.no_rep.as_str()), ("BAL", "CAS"));
    assert_eq!(a.prim, 0.0);
    assert_eq!((a.rep_io, a.rep_sql, a.rep_lag), (Some(1.0), Some(0.0), Some(3.0)));
    assert_eq!((a.site, a.latencia), (None, None));
    assert_eq!((a.app, a.db), (Some((5.0, 6.0)), None));
    assert_eq!(a.hist, None);

    let b = &ls[1];
    assert_eq!((b.no.as_str(), b.no_rep.as_str()), ("CAS", "-"));
    assert_eq!(b.prim, 1.0);
    assert_eq!((b.rep_io, b.rep_sql, b.rep_lag), (None, None, None));
    assert_eq!((b.site, b.latencia), (Some(1.0), Some(0.2)));
    assert_eq!((b.app, b.db), (None, Some((3.0, 4.0))));
    assert_eq!(b.hist, Some(2));

    let c3 = &ls[2];
    assert_eq!((c3.no.as_str(), c3.no_rep.as_str()), ("?", "-"));
}

#[test]
fn sem_servicos_nao_ha_consumo() {
    let mut c = cfg_cluster();
    c.servico_app = String::new();
    c.servico_banco = String::new();
    let ls = buscar(Some(&c), &vec![], &coleta()).ok().unwrap();
    assert!(ls.iter().all(|l| l.app.is_none() && l.db.is_none()));
    assert_eq!(ls[0].no, "?");
}

#[test]
fn sem_prometheus_e_sem_cluster() {
    let c = cfg_cluster();
    let mut d = coleta();
    d.prim = vec![];
    let e = buscar(Some(&c), &vec![], &d).err().unwrap();
    assert_eq!(e, "sem resposta do Prometheus");
    let ls = buscar::<f64, (f64, f64)>(None, &vec![], &d).ok().unwrap();
    assert_eq!(ls.len(), 0);
}

#[test]
fn coleta_que_falha_mantem_as_linhas() {
    let mut c: magi::cluster::Cluster<&str, u64> = magi::cluster::Cluster::novo();
    assert!(c.tenants.is_empty() && c.erro.is_empty() && c.atualizado.is_none());
    c.aplicar(Ok(vec!["a", "b"]), 10);
    assert_eq!((c.tenants.clone(), c.erro.as_str(), c.atualizado), (vec!["a", "b"], "", Some(10)));
    c.aplicar(Err("sem resposta do Prometheus".to_string()), 20);
    assert_eq!((c.tenants.clone(), c.erro.as_str(), c.atualizado), (vec!["a", "b"], "sem resposta do Prometheus", Some(10)));
    c.aplicar(Ok(vec![]), 30);
    assert_eq!((c.tenants.len(), c.erro.as_str(), c.atualizado), (0, "", Some(30)));
}

#[test]
fn lista_vazia_de_containers_nao_apaga_a_anterior() {
    let mut v = vec![1, 2];
    magi::coleta::aplicar_containers(&mut v, vec![]);
    assert_eq!(v, vec![1, 2]);
    magi::coleta::aplicar_containers(&mut v, vec![3]);
    assert_eq!(v, vec![3]);
}

#[test]
fn contagens_do_swarm() {
    let c = |s: bool, a: &str, b: &str| (s, a.to_string(), b.to_string());
    let cs = vec![c(true, "loja", "app"), c(false, "", ""), c(true, "loja", "app"), c(true, "loja", "db"), c(true, "mon", "app"), c(false, "x", "y")];
    assert_eq!(contagem_swarm(&cs), (4, 2, 3));
    assert_eq!(contagem_swarm(&vec![]), (0, 0, 0));
}

#[test]
fn minutos_de_cada_bloco() {
    assert_eq!(minutos_por_bloco(30, 30), 1);
    assert_eq!(minutos_por_bloco(60, 30), 2);
    assert_eq!(minutos_por_bloco(60, 0), 60);
    assert_eq!(minutos_por_bloco(10, 30), 1);
    assert_eq!(minutos_por_bloco(-60, 30), 1);
}

#[test]
fn linhas_por_no_e_tenant() {
    let k = |a: &str, b: &str| (a.to_string(), b.to_string());
    let ks = vec![k("MEL", "b"), k("CAS", "z"), k("MEL", "a"), k("CAS", "a"), k("?", "q"), k("MEL", "a")];
    assert_eq!(ordem_por_no(&ks), vec![4, 3, 1, 2, 5, 0]);
    assert_eq!(ordem_por_no(&vec![]), Vec::<usize>::new());
}

#[test]
fn veredito_do_swarm_na_ordem() {
    let v = |xs: &[&str]| xs.iter().map(|x| x.to_string()).collect::<Vec<String>>();
    assert!(matches!(veredito("sem resposta", &v(&["a"]), &v(&["b"]), 3), Veredito::Erro));
    assert!(matches!(veredito("", &v(&["a", "c"]), &v(&["b"]), 3), Veredito::Fora(t) if t == "FORA DO AR: a, c"));
    assert!(matches!(veredito("", &v(&[]), &v(&["b"]), 3), Veredito::SemReplica(t) if t == "SEM REPLICA: b"));
    assert!(matches!(veredito("", &v(&[]), &v(&[]), 3), Veredito::Integro));
    assert!(matches!(veredito("", &v(&[]), &v(&[]), 0), Veredito::Coletando));
}

#[test]
fn motivo_da_tabela_vazia() {
    assert_eq!(motivo_sem_containers(true, true), "sem cAdvisor nesta unidade, nao ha metrica de container");
    assert_eq!(motivo_sem_containers(false, true), "sem dados do Prometheus");
    assert_eq!(motivo_sem_containers(false, false), "unidade offline");
}
