use magi::coleta::{
    conta_cpus, escolhidas_de, ignora_disco, ignora_net, mais_cheia, nome_curto, parse_labels, parse_metrics,
    rotulo_unidade, tipo_do_erro, url_consulta, url_encode, url_intervalo, url_node, Filtro, Rotulos,
};

fn valor(r: &Rotulos, chave: &str) -> Option<String> {
    r.get(chave).cloned()
}

#[test]
fn rotulos_simples() {
    let r = parse_labels("cpu=\"0\",mode=\"idle\"");
    assert_eq!(valor(&r, "cpu"), Some("0".to_string()));
    assert_eq!(valor(&r, "mode"), Some("idle".to_string()));
    assert_eq!(valor(&r, "device"), None);
    assert_eq!(r.rotulo("device"), "");
}

#[test]
fn rotulos_chave_repetida_vale_a_ultima() {
    let r = parse_labels("a=\"1\",a=\"2\"");
    assert_eq!(valor(&r, "a"), Some("2".to_string()));
}

#[test]
fn rotulos_virgula_dentro_do_valor() {
    let r = parse_labels("a=\"x,y\", b=\"z\"");
    assert_eq!(valor(&r, "a"), Some("x,y".to_string()));
    assert_eq!(valor(&r, "b"), Some("z".to_string()));
}

#[test]
fn rotulos_param_sem_aspas_para_a_leitura() {
    // depois do `=` tem que vir aspas; senao a leitura para ali
    let r = parse_labels("a=\"1\",b = \"2\",c=\"3\"");
    assert_eq!(valor(&r, "a"), Some("1".to_string()));
    assert_eq!(valor(&r, "b"), None);
    assert_eq!(valor(&r, "c"), None);
}

#[test]
fn rotulos_valor_sem_fecha_aspas_e_chave_vazia() {
    let r = parse_labels("=\"x\",a=\"abc");
    assert_eq!(valor(&r, ""), None);
    assert_eq!(valor(&r, "a"), Some("abc".to_string()));
    let r = parse_labels("sem_igual");
    assert_eq!(r.pares.len(), 0);
}

#[test]
fn metricas_do_texto_do_prometheus() {
    let t = "# HELP x ajuda\n\
             node_cpu_seconds_total{cpu=\"0\",mode=\"idle\"} 123.5\n\
             \n\
             up 1\n\
             solto\n\
             \t node_load1   0.25  \r\n";
    let m = parse_metrics(t);
    assert_eq!(m.len(), 3);
    assert_eq!(m[0].nome, "node_cpu_seconds_total");
    assert_eq!(m[0].valor, "123.5");
    assert_eq!(m[0].rotulos.rotulo("mode"), "idle");
    assert_eq!(m[0].rotulos.rotulo("cpu"), "0");
    assert_eq!(m[1].nome, "up");
    assert_eq!(m[1].valor, "1");
    assert_eq!(m[1].rotulos.pares.len(), 0);
    assert_eq!(m[2].nome, "node_load1");
    assert_eq!(m[2].valor, "0.25");
}

#[test]
fn carimbo_de_tempo_nao_e_o_valor() {
    let m = parse_metrics("m 1 2");
    assert_eq!(m.len(), 1);
    assert_eq!((m[0].nome.as_str(), m[0].valor.as_str()), ("m", "1"));
    assert_eq!(m[0].rotulos.pares.len(), 0);
    let m = parse_metrics("m{a=\"b\"} 1 1700000000\nn{x=\"}\",y=\"z\"}  -3.5e2   42\nvazio{a=\"b\"}");
    assert_eq!(m.len(), 2);
    assert_eq!((m[0].nome.as_str(), m[0].valor.as_str()), ("m", "1"));
    assert_eq!(m[0].rotulos.rotulo("a"), "b");
    assert_eq!((m[1].nome.as_str(), m[1].valor.as_str()), ("n", "-3.5e2"));
    assert_eq!(m[1].rotulos.rotulo("x"), "}");
    assert_eq!(m[1].rotulos.rotulo("y"), "z");
}

#[test]
fn valor_colado_na_chave_que_fecha() {
    // sem espaco depois da chave o valor nao se separa: a linha nao rende
    assert_eq!(parse_metrics("m{a=\"1\"}5\n").len(), 0);
    // com um espaco mais adiante, o valor e o ultimo pedaco e o resto e a cabeca
    let m = parse_metrics("m{a=\"1\"}5 7");
    assert_eq!(m.len(), 1);
    assert_eq!((m[0].nome.as_str(), m[0].valor.as_str()), ("m", "7"));
    assert_eq!(m[0].rotulos.pares, parse_labels("a=\"1\"}5").pares);
    // tabulacao tambem separa
    let m = parse_metrics("m{a=\"1\"}\t5");
    assert_eq!((m[0].nome.as_str(), m[0].valor.as_str()), ("m", "5"));
    assert_eq!(m[0].rotulos.rotulo("a"), "1");
}

#[test]
fn metrica_com_chave_sem_fecho() {
    let m = parse_metrics("x{a=\"1\" 7");
    assert_eq!(m.len(), 1);
    assert_eq!(m[0].nome, "x");
    assert_eq!(m[0].rotulos.rotulo("a"), "1");
    assert_eq!(m[0].valor, "7");
}

#[test]
fn processadores_distintos() {
    let t = "node_cpu_seconds_total{cpu=\"0\",mode=\"idle\"} 1\n\
             node_cpu_seconds_total{cpu=\"0\",mode=\"user\"} 1\n\
             node_cpu_seconds_total{cpu=\"1\",mode=\"idle\"} 1\n\
             node_cpu_seconds_total{cpu=\"3\",mode=\"idle\"} 1\n\
             outra{cpu=\"9\"} 1\n";
    assert_eq!(conta_cpus(&parse_metrics(t)), 3);
    assert_eq!(conta_cpus(&parse_metrics("up 1")), 1);
}

#[test]
fn nome_de_task_do_swarm() {
    let id = "abcdefghij0123456789";
    let (curto, stack, svc, swarm) = nome_curto(&format!("loja_app.1.{}", id));
    assert_eq!((curto.as_str(), stack.as_str(), svc.as_str(), swarm), ("loja/app", "loja", "app", true));
    let (curto, _, svc, swarm) = nome_curto(&format!("loja_my_app.12.{}", id));
    assert_eq!((curto.as_str(), svc.as_str(), swarm), ("loja/my_app", "my_app", true));
}

#[test]
fn nome_de_task_global_ganha_asterisco() {
    let id = "abcdefghij0123456789";
    let no = "zzzzzzzzzzyyyyyyyyyy9";
    let (curto, stack, svc, swarm) = nome_curto(&format!("mon_agente.{}.{}", no, id));
    assert_eq!((curto.as_str(), stack.as_str(), svc.as_str(), swarm), ("mon/agente*", "mon", "agente", true));
}

#[test]
fn nome_que_nao_e_task_volta_intacto() {
    let id = "abcdefghij0123456789";
    for n in [
        "postgres".to_string(),
        "a.b.c".to_string(),
        format!("loja.1.{}", id),
        format!("_app.1.{}", id),
        format!("loja_.1.{}", id),
        format!("loja_app.x1.{}", id),
        format!("loja_app.1.{}-", id),
        format!("loja_app.1.{}.4", id),
        format!("loja_app..{}", id),
    ] {
        let (curto, stack, svc, swarm) = nome_curto(&n);
        assert_eq!(curto, n);
        assert_eq!((stack.as_str(), svc.as_str(), swarm), ("", "", false));
    }
}

#[test]
fn interfaces_ignoradas() {
    for d in ["lo", "docker0", "veth12", "br-abc", "tailscale0"] {
        assert!(ignora_net(d), "{}", d);
    }
    for d in ["eth0", "wlan0", "bridge", "ens3", ""] {
        assert!(!ignora_net(d), "{}", d);
    }
}

#[test]
fn discos_ignorados() {
    for d in ["loop0", "ram1", "dm-0", "sr0"] {
        assert!(ignora_disco(d), "{}", d);
    }
    for d in ["sda", "nvme0n1", "dm0", "vda", ""] {
        assert!(!ignora_disco(d), "{}", d);
    }
}

#[test]
fn tipos_de_erro() {
    assert_eq!(tipo_do_erro("Connection Timed Out"), "Timeout");
    assert_eq!(tipo_do_erro("operation TIMEOUT"), "Timeout");
    assert_eq!(tipo_do_erro("Connection refused (os error 111)"), "ConnRecusada");
    assert_eq!(tipo_do_erro("failed to lookup address: DNS error"), "DNS");
    assert_eq!(tipo_do_erro("could not Resolve host"), "DNS");
    assert_eq!(tipo_do_erro("refused after timeout"), "Timeout");
    assert_eq!(tipo_do_erro("broken pipe"), "Rede");
    assert_eq!(tipo_do_erro(""), "Rede");
}

#[test]
fn codificacao_de_url() {
    assert_eq!(url_encode("AZaz09-_.~"), "AZaz09-_.~");
    assert_eq!(url_encode("a b/c"), "a%20b%2Fc");
    assert_eq!(url_encode("rate(x[1m])"), "rate%28x%5B1m%5D%29");
    assert_eq!(url_encode("é"), "%C3%A9");
    assert_eq!(url_encode("{job=\"db\"}"), "%7Bjob%3D%22db%22%7D");
    assert_eq!(url_encode(""), "");
}

#[test]
fn urls_de_consulta_ao_prometheus() {
    assert_eq!(
        url_consulta("http://p:9090", "up{job=\"x\"}"),
        "http://p:9090/api/v1/query?query=up%7Bjob%3D%22x%22%7D"
    );
    assert_eq!(
        url_intervalo("http://p", "rate(a[1m])", 1699998200, 1700000000, 30),
        "http://p/api/v1/query_range?query=rate%28a%5B1m%5D%29&start=1699998200&end=1700000000&step=30"
    );
    assert_eq!(
        url_intervalo("p", "x", -5, 0, i64::MIN),
        "p/api/v1/query_range?query=x&start=-5&end=0&step=-9223372036854775808"
    );
    assert_eq!(
        url_intervalo("", "", i64::MAX, 9, 10),
        "/api/v1/query_range?query=&start=9223372036854775807&end=9&step=10"
    );
}

#[test]
fn url_do_node_exporter() {
    assert_eq!(
        url_node("10.0.0.1"),
        "http://10.0.0.1:9100/metrics?collect[]=cpu&collect[]=meminfo&collect[]=filesystem\
         &collect[]=netdev&collect[]=diskstats&collect[]=loadavg&collect[]=time&collect[]=stat"
    );
}

#[test]
fn rotulo_de_unidade() {
    assert_eq!(rotulo_unidade("MELCHIOR", "1"), "MELCHIOR-1");
    assert_eq!(rotulo_unidade("", ""), "-");
}

#[test]
fn unidade_mais_cheia_empate_fica_com_a_ultima() {
    let cont = vec![3, 7, 7, 1];
    assert_eq!(mais_cheia(&vec![0, 1, 2, 3], &cont), Some(2));
    assert_eq!(mais_cheia(&vec![0, 3], &cont), Some(0));
    assert_eq!(mais_cheia(&vec![2, 1], &cont), Some(1));
    assert_eq!(mais_cheia(&vec![], &cont), None);
}

#[test]
fn linhas_escolhidas_por_filtro() {
    let t = "node_cpu_seconds_total{cpu=\"0\",mode=\"idle\"} 1\n\
             node_cpu_seconds_total{cpu=\"0\",mode=\"user\"} 2\n\
             node_network_receive_bytes_total{device=\"eth0\"} 3\n\
             node_network_receive_bytes_total{device=\"lo\"} 4\n\
             node_network_receive_bytes_total 5\n\
             node_disk_read_bytes_total{device=\"sda\"} 6\n\
             node_disk_read_bytes_total{device=\"loop1\"} 7\n\
             node_filesystem_size_bytes{mountpoint=\"/boot\"} 8\n\
             node_filesystem_size_bytes{mountpoint=\"/\"} 9\n\
             node_cpu_seconds_total{cpu=\"1\",mode=\"idle\"} 10\n";
    let m = parse_metrics(t);
    assert_eq!(escolhidas_de(&m, "node_cpu_seconds_total", Filtro::Todas), vec![0, 1, 9]);
    assert_eq!(escolhidas_de(&m, "node_cpu_seconds_total", Filtro::Ocioso), vec![0, 9]);
    assert_eq!(escolhidas_de(&m, "node_network_receive_bytes_total", Filtro::Rede), vec![2, 4]);
    assert_eq!(escolhidas_de(&m, "node_disk_read_bytes_total", Filtro::Disco), vec![5]);
    assert_eq!(escolhidas_de(&m, "node_filesystem_size_bytes", Filtro::Raiz), vec![8]);
    assert_eq!(escolhidas_de(&m, "nada", Filtro::Todas), Vec::<usize>::new());
}

#[test]
fn url_codificada_volta_aos_bytes() {
    for s in ["a b/é", "", "AZaz09-_.~", "%%", "{job=\"db\"}", "\u{1f600}x"] {
        let r = url_encode(s);
        assert!(r.is_ascii());
        assert!(s.len() <= r.len() && r.len() <= 3 * s.len());
        let b = r.as_bytes();
        let mut volta: Vec<u8> = Vec::new();
        let mut i = 0;
        while i < b.len() {
            if b[i] == b'%' && i + 3 <= b.len() {
                volta.push(u8::from_str_radix(&r[i + 1..i + 3], 16).unwrap());
                i += 3;
            } else {
                volta.push(b[i]);
                i += 1;
            }
        }
        assert_eq!(volta, s.as_bytes());
    }
}

#[test]
fn rotulos_escritos_voltam_iguais() {
    let pares = [("job", "node"), ("instance", "10.0.0.1:9100"), ("msg", "a, b = c"), ("vazio", "")];
    let escrito: Vec<String> = pares.iter().map(|(k, v)| format!("{}=\"{}\"", k, v)).collect();
    let r = parse_labels(&escrito.join(","));
    let lidos: Vec<(String, String)> = r.pares.clone();
    let esperado: Vec<(String, String)> = pares.iter().map(|(k, v)| (k.to_string(), v.to_string())).collect();
    assert_eq!(lidos, esperado);
    assert_eq!(parse_labels("").pares.len(), 0);
}
