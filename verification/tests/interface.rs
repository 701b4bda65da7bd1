use magi::tempo::{agora_hhmmss, civil, desloc_de, dur_h};
use magi::ui::{
    aba_de, alvo_prometheus, pedido_resize, pinta, rotulos_abas, tecla, total_abas, Aba, Acao, Tecla,
};

#[test]
fn teclas_de_aba() {
    assert_eq!(tecla(0, 5, Tecla::Caractere('q', false)), (0, Acao::Sair));
    assert_eq!(tecla(3, 5, Tecla::Caractere('Q', false)), (3, Acao::Sair));
    assert_eq!(tecla(1, 5, Tecla::Caractere('c', true)), (1, Acao::Sair));
    assert_eq!(tecla(1, 5, Tecla::Caractere('c', false)), (1, Acao::Nada));
    assert_eq!(tecla(0, 5, Tecla::Caractere('3', false)), (2, Acao::Nada));
    assert_eq!(tecla(0, 5, Tecla::Caractere('5', false)), (4, Acao::Nada));
    assert_eq!(tecla(2, 5, Tecla::Caractere('6', false)), (2, Acao::Nada));
    assert_eq!(tecla(2, 5, Tecla::Caractere('0', false)), (2, Acao::Nada));
    assert_eq!(tecla(2, 5, Tecla::Caractere('r', false)), (2, Acao::Atualizar));
    assert_eq!(tecla(2, 5, Tecla::Caractere('R', true)), (2, Acao::Atualizar));
    assert_eq!(tecla(4, 5, Tecla::Tab), (0, Acao::Nada));
    assert_eq!(tecla(1, 5, Tecla::Direita), (2, Acao::Nada));
    assert_eq!(tecla(0, 5, Tecla::Esquerda), (4, Acao::Nada));
    assert_eq!(tecla(2, 5, Tecla::Outra), (2, Acao::Nada));
}

#[test]
fn setas_se_desfazem() {
    for total in 1..7usize {
        for aba in 0..total {
            let (d, _) = tecla(aba, total, Tecla::Direita);
            assert_eq!(tecla(d, total, Tecla::Esquerda).0, aba);
            let (e, _) = tecla(aba, total, Tecla::Esquerda);
            assert_eq!(tecla(e, total, Tecla::Direita).0, aba);
        }
    }
}

#[test]
fn abas_na_ordem() {
    assert_eq!(total_abas(3, true), 6);
    assert_eq!(total_abas(3, false), 5);
    assert_eq!(aba_de(0, 3, true), Aba::Geral);
    assert_eq!(aba_de(1, 3, true), Aba::Unidade(0));
    assert_eq!(aba_de(3, 3, true), Aba::Unidade(2));
    assert_eq!(aba_de(4, 3, true), Aba::Diagrama);
    assert_eq!(aba_de(5, 3, true), Aba::Cluster);
    assert_eq!(aba_de(4, 3, false), Aba::Diagrama);
    assert_eq!(aba_de(0, 0, false), Aba::Geral);
    assert_eq!(aba_de(1, 0, false), Aba::Diagrama);
    for com in [false, true] {
        let total = total_abas(3, com);
        let abas: Vec<Aba> = (0..total).map(|a| aba_de(a, 3, com)).collect();
        for i in 0..total {
            for j in 0..total {
                if i != j {
                    assert_ne!(abas[i], abas[j]);
                }
            }
        }
    }
}

#[test]
fn rotulos_do_cabecalho() {
    let us = vec!["CASPER-1".to_string(), "MELCHIOR-2".to_string()];
    assert_eq!(
        rotulos_abas(&us, true),
        vec![" 1 GERAL ", " 2 CASPER-1 ", " 3 MELCHIOR-2 ", " 4 DIAGRAMA ", " 5 CLUSTER "]
    );
    assert_eq!(rotulos_abas(&vec![], false), vec![" 1 GERAL ", " 2 DIAGRAMA "]);
}

#[test]
fn alvo_do_prometheus() {
    assert_eq!(alvo_prometheus(""), None);
    assert_eq!(alvo_prometheus("http://prom.local:9091/api"), Some(("prom.local".to_string(), 9091)));
    assert_eq!(alvo_prometheus("http://prom.local"), Some(("prom.local".to_string(), 9090)));
    assert_eq!(alvo_prometheus("prom:80"), Some(("prom".to_string(), 80)));
    assert_eq!(alvo_prometheus("http://h:porta/x"), Some(("h".to_string(), 9090)));
    assert_eq!(alvo_prometheus("http://h:99999"), Some(("h".to_string(), 9090)));
    assert_eq!(alvo_prometheus("http://h:+8"), Some(("h".to_string(), 8)));
    assert_eq!(alvo_prometheus("http://[::1]:9092"), Some(("[::1]".to_string(), 9092)));
    assert_eq!(alvo_prometheus("a://b://c:1/d"), Some(("b".to_string(), 9090)));
    assert_eq!(alvo_prometheus("/caminho"), Some(("".to_string(), 9090)));
}

#[test]
fn pedido_de_tamanho_so_aumenta() {
    assert_eq!(pedido_resize(120, 50, 106, 40), None);
    assert_eq!(pedido_resize(106, 40, 106, 40), None);
    assert_eq!(pedido_resize(80, 24, 106, 40), Some("\x1b[8;40;106t".to_string()));
    assert_eq!(pedido_resize(120, 24, 106, 40), Some("\x1b[8;40;120t".to_string()));
    assert_eq!(pedido_resize(80, 50, 106, 40), Some("\x1b[8;50;106t".to_string()));
}

#[test]
fn texto_pintado() {
    assert_eq!(pinta("oi", Some((255, 0, 7)), true), "\x1b[38;2;255;0;7m\x1b[1moi\x1b[0m");
    assert_eq!(pinta("oi", None, false), "oi\x1b[0m");
    assert_eq!(pinta("", Some((1, 2, 3)), false), "\x1b[38;2;1;2;3m\x1b[0m");
}

#[test]
fn datas_civis() {
    assert_eq!(civil(0), (1970, 1, 1));
    assert_eq!(civil(-1), (1969, 12, 31));
    assert_eq!(civil(19723), (2024, 1, 1));
    assert_eq!(civil(19723 + 59), (2024, 2, 29));
    assert_eq!(civil(19723 + 60), (2024, 3, 1));
    assert_eq!(civil(11016), (2000, 2, 29));
    assert_eq!(civil(-25508), (1900, 3, 1));
    assert_eq!(civil(-25509), (1900, 2, 28));
    assert_eq!(civil(-719468), (0, 3, 1));
    assert_eq!(civil(-719469), (0, 2, 29));
}

#[test]
fn datas_civis_conferem_dia_a_dia() {
    // anda dia a dia de 1899 a 2101 conferindo que a data avanca de um em um
    let mut ant = civil(-25933);
    for z in -25932..47847i64 {
        let d = civil(z);
        let bissexto = |a: i64| a % 4 == 0 && (a % 100 != 0 || a % 400 == 0);
        let no_mes = |a: i64, m: u32| match m {
            2 => if bissexto(a) { 29 } else { 28 },
            4 | 6 | 9 | 11 => 30,
            _ => 31,
        };
        let esperado = if ant.2 < no_mes(ant.0, ant.1) {
            (ant.0, ant.1, ant.2 + 1)
        } else if ant.1 < 12 {
            (ant.0, ant.1 + 1, 1)
        } else {
            (ant.0 + 1, 1, 1)
        };
        assert_eq!(d, esperado, "dia {}", z);
        ant = d;
    }
}

#[test]
fn relogio_do_cabecalho() {
    assert_eq!(agora_hhmmss(0), "01/01 00:00:00");
    assert_eq!(agora_hhmmss(19723 * 86400 + 3723), "01/01 01:02:03");
    assert_eq!(agora_hhmmss((19723 + 59) * 86400 + 86399), "29/02 23:59:59");
    assert_eq!(agora_hhmmss(-1), "01/01 00:00:-1");
    assert_eq!(agora_hhmmss(-3661), "01/01 -1:-1:-1");
    assert_eq!(agora_hhmmss(-86400), "31/12 00:00:00");
}

#[test]
fn fuso_lido_do_date() {
    assert_eq!(desloc_de("-0300\n"), -10800);
    assert_eq!(desloc_de("  +0530 "), 19800);
    assert_eq!(desloc_de("+0000"), 0);
    assert_eq!(desloc_de("0100"), 0);
    assert_eq!(desloc_de("+05:30"), 0);
    assert_eq!(desloc_de(""), 0);
    assert_eq!(desloc_de("x+5-3"), 5 * 3600 - 180);
    assert_eq!(desloc_de("é0300"), 0);
    assert_eq!(desloc_de("+1200 sobra"), 43200);
}

#[test]
fn duracao_curta() {
    assert_eq!(dur_h(0), "00h 00m");
    assert_eq!(dur_h(3661), "01h 01m");
    assert_eq!(dur_h(86399), "23h 59m");
    assert_eq!(dur_h(90000), "1d 01h");
    assert_eq!(dur_h(10 * 86400 + 5 * 3600), "10d 05h");
}
