use magi::texto::{
    acha_trecho_em, apara_em, chars_de, comeca_com, contem_em, decimal2_de, decimal_de, eh_espaco,
    junta_lista, menor_str, minuscula_de, ordena, string_de, ultimo_de_em, unicos,
};
use magi::ui::parse_u16_de;

fn amostras() -> Vec<String> {
    vec![
        "", "a", "b", "A", "ab", "aa", "a ", " a", "é", "e", "zz", "Z", "10", "9", "100", "\u{10ffff}",
        "ma", "mä", "b", "a",
    ]
    .into_iter()
    .map(|s| s.to_string())
    .collect()
}

#[test]
fn espaco_igual_ao_da_biblioteca_padrao() {
    for u in 0..0x110000u32 {
        if let Some(c) = char::from_u32(u) {
            assert_eq!(eh_espaco(c), c.is_whitespace(), "{:x}", u);
        }
    }
}

#[test]
fn aparar_igual_a_trim() {
    for s in ["", "  ", " a ", "\t\nx y\u{3000}", "\u{a0}z", "abc", " \u{85}q\u{2029}"] {
        let v = chars_de(s);
        let (a, b) = apara_em(&v, 0, v.len());
        let t: String = v[a..b].iter().collect();
        assert_eq!(t, s.trim(), "{:?}", s);
    }
}

#[test]
fn ordem_de_texto_igual_a_de_string() {
    let xs = amostras();
    for a in &xs {
        for b in &xs {
            assert_eq!(menor_str(a, b), a < b, "{:?} {:?}", a, b);
        }
    }
    let mut esperado = xs.clone();
    esperado.sort();
    assert_eq!(ordena(&xs), esperado);
    esperado.dedup();
    assert_eq!(unicos(&xs), esperado);
}

#[test]
fn numeros_em_decimal() {
    for n in [0u64, 7, 10, 99, 100, 12345, u64::MAX] {
        assert_eq!(string_de(&decimal_de(n)), n.to_string());
        assert_eq!(string_de(&decimal2_de(n)), format!("{:02}", n));
    }
}

#[test]
fn porta_como_str_parse() {
    for s in ["", "0", "80", "+8", "-8", "65535", "65536", "99999999999", "8a", " 8", "++1", "+"] {
        let v = chars_de(s);
        assert_eq!(parse_u16_de(&v, 0), s.parse::<u16>().ok(), "{:?}", s);
    }
}

#[test]
fn buscas_em_texto() {
    let v = chars_de("abc://def://g");
    assert_eq!(acha_trecho_em(&v, 0, "://"), 3);
    assert_eq!(acha_trecho_em(&v, 4, "://"), 9);
    assert_eq!(acha_trecho_em(&v, 10, "://"), v.len());
    assert_eq!(acha_trecho_em(&v, 2, ""), 2);
    assert_eq!(ultimo_de_em(&v, '/'), Some(11));
    assert_eq!(ultimo_de_em(&v, 'x'), None);
    assert!(comeca_com(&v, "abc"));
    assert!(!comeca_com(&v, "abd"));
    assert!(contem_em(&v, "def"));
    assert!(!contem_em(&v, "gh"));
    assert_eq!(minuscula_de('Q'), 'q');
    assert_eq!(minuscula_de('É'), 'É');
    let l = vec!["a".to_string(), "".to_string(), "c".to_string()];
    assert_eq!(junta_lista(&l, "&"), l.join("&"));
    assert_eq!(junta_lista(&vec![], "&"), "");
}
