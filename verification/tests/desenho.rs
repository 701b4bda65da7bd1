use std::collections::VecDeque;

use magi::cfg::Cor;
use magi::coleta::nomes_containers;
use magi::historico::{cauda, empurra, semeia};
use magi::logo::{logo, Traco};
use magi::painel::{bloco, liga, painel_unidades, rotulo, Celula, Cortes, Tela, CHANFRO_TL, CHANFRO_TR};
use magi::cluster::largura_natural;
use magi::tabela::{regua, tabela, Peca};

fn cel(t: &Tela, r: usize, c: usize) -> (char, Option<Cor>, Option<Cor>) {
    let x = t.le(r, c);
    (x.ch, x.fg, x.bg)
}

const NENHUM: Cortes = Cortes { tl: 0, tr: 0, bl: 0, br: 0 };

#[test]
fn tela_nova_vazia() {
    let mut t = Tela::nova(3, 2);
    assert_eq!((t.largura, t.altura), (3, 2));
    assert_eq!(cel(&t, 1, 2), (' ', None, None));
    assert_eq!(cel(&t, 5, 5), (' ', None, None));
    t.define(1, 2, Celula { ch: 'x', fg: Some(Cor::Verde), bg: None });
    assert_eq!(cel(&t, 1, 2), ('x', Some(Cor::Verde), None));
    t.define(9, 9, Celula { ch: 'y', fg: None, bg: None });
    assert_eq!(cel(&t, 0, 0), (' ', None, None));
}

#[test]
fn bloco_cheio_com_texto_no_meio() {
    let mut t = Tela::nova(10, 3);
    bloco(&mut t, 0, 0, 10, 3, &vec!["AB".to_string()], Cor::Verde, NENHUM);
    assert_eq!(cel(&t, 0, 0), (' ', None, Some(Cor::Verde)));
    assert_eq!(cel(&t, 2, 9), (' ', None, Some(Cor::Verde)));
    assert_eq!(cel(&t, 1, 4), ('A', Some(Cor::Preto), Some(Cor::Verde)));
    assert_eq!(cel(&t, 1, 5), ('B', Some(Cor::Preto), Some(Cor::Verde)));
    assert_eq!(cel(&t, 1, 6), (' ', None, Some(Cor::Verde)));
}

#[test]
fn bloco_com_canto_cortado() {
    let mut t = Tela::nova(6, 4);
    bloco(&mut t, 0, 0, 6, 4, &vec![], Cor::Ambar, Cortes { tl: 2, tr: 0, bl: 0, br: 0 });
    assert_eq!(cel(&t, 0, 0), (' ', None, None));
    assert_eq!(cel(&t, 0, 1), (CHANFRO_TL, Some(Cor::Ambar), None));
    assert_eq!(cel(&t, 0, 2), (' ', None, Some(Cor::Ambar)));
    assert_eq!(cel(&t, 1, 0), (' ', None, Some(Cor::Ambar)));
}

#[test]
fn texto_maior_que_o_bloco_nao_entra() {
    let mut t = Tela::nova(4, 1);
    bloco(&mut t, 0, 0, 4, 1, &vec!["a".to_string(), "b".to_string()], Cor::Verde, NENHUM);
    assert_eq!(cel(&t, 0, 1), (' ', None, Some(Cor::Verde)));
    let mut t = Tela::nova(4, 1);
    bloco(&mut t, 0, 0, 4, 1, &vec!["abcdef".to_string()], Cor::Verde, NENHUM);
    assert_eq!(cel(&t, 0, 0).0, 'a');
    assert_eq!(cel(&t, 0, 3).0, 'd');
}

#[test]
fn ligacao_e_rotulo() {
    let mut t = Tela::nova(8, 2);
    liga(&mut t, 0, 2, 3, Cor::Laranja);
    assert_eq!(cel(&t, 0, 1), (' ', None, None));
    assert_eq!(cel(&t, 0, 2), (' ', None, Some(Cor::Laranja)));
    assert_eq!(cel(&t, 0, 4), (' ', None, Some(Cor::Laranja)));
    assert_eq!(cel(&t, 0, 5), (' ', None, None));
    rotulo(&mut t, 0, 3, "ok!!!!!!", Cor::Ciano);
    assert_eq!(cel(&t, 0, 3), ('o', Some(Cor::Ciano), None));
    assert_eq!(cel(&t, 0, 4), ('k', Some(Cor::Ciano), None));
    assert_eq!(cel(&t, 0, 7), ('!', Some(Cor::Ciano), None));
    liga(&mut t, 5, 0, 20, Cor::Laranja);
}

#[test]
fn diagrama_das_tres_unidades() {
    let t = painel_unidades(&vec![(
        "CASPER".to_string(),
        vec!["CASPER-2".to_string(), "NORMAL".to_string(), "3 ctn".to_string()],
        Cor::Verde,
    )]);
    assert_eq!((t.largura, t.altura), (64, 16));
    // BALTHASAR nao veio: bloco fosco com o nome e dois tracos
    assert_eq!(cel(&t, 0, 27), ('B', Some(Cor::Preto), Some(Cor::Fosco)));
    assert_eq!(cel(&t, 0, 35), ('R', Some(Cor::Preto), Some(Cor::Fosco)));
    assert_eq!(cel(&t, 1, 31), ('-', Some(Cor::Preto), Some(Cor::Fosco)));
    assert_eq!(cel(&t, 5, 17), (' ', None, None));
    // CASPER com a cor do estado e o canto superior direito cortado
    assert_eq!(cel(&t, 9, 25), (CHANFRO_TR, Some(Cor::Verde), None));
    assert_eq!(cel(&t, 9, 26), (' ', None, None));
    assert_eq!(cel(&t, 15, 0), (' ', None, Some(Cor::Verde)));
    // as ligacoes e o nome no centro
    assert_eq!(cel(&t, 6, 29), (' ', None, Some(Cor::Laranja)));
    assert_eq!(cel(&t, 8, 24), (' ', None, Some(Cor::Laranja)));
    assert_eq!(cel(&t, 7, 28), ('M', Some(Cor::LaranjaForte), None));
    assert_eq!(cel(&t, 7, 34), ('I', Some(Cor::LaranjaForte), None));
}

#[test]
fn regua_simples() {
    assert_eq!(regua(&vec![1], "<", "+", ">", "-"), "<--->");
    assert_eq!(regua(&vec![1, 0], "<", "+", ">", "-"), "<---+-->");
    assert_eq!(regua(&vec![], "<", "+", ">", "-"), "<");
}

#[test]
fn tabela_com_alinhamento_e_sobra() {
    let corpo = vec![vec![(1, true), (2, false)], vec![(5, false), (0, true)]];
    let g = tabela(&["A", "BB"], &vec![3, 2], 1, &corpo, 0);
    assert_eq!(g.larguras, vec![3, 2]);
    assert_eq!(g.topo, "┏━━━━━┳━━━━┓");
    assert_eq!(g.meio, "┡━━━━━╇━━━━┩");
    assert_eq!(g.base, "└─────┴────┘");
    assert_eq!(
        g.titulos,
        vec![
            Peca::Borda(true),
            Peca::Espacos(1),
            Peca::Espacos(2),
            Peca::Titulo(0),
            Peca::Espacos(1),
            Peca::Borda(true),
            Peca::Espacos(1),
            Peca::Titulo(1),
            Peca::Espacos(1),
            Peca::Borda(true),
        ]
    );
    assert_eq!(
        g.corpo[1],
        vec![
            Peca::Borda(false),
            Peca::Espacos(1),
            Peca::Celula(1, 0),
            Peca::Espacos(1),
            Peca::Borda(false),
            Peca::Espacos(1),
            Peca::Espacos(2),
            Peca::Celula(1, 1),
            Peca::Espacos(1),
            Peca::Borda(false),
        ]
    );
    let g = tabela(&["A", "BB"], &vec![3, 2], 1, &corpo, 20);
    assert_eq!(g.larguras, vec![3, 10]);
    assert_eq!(largura_natural(&g.larguras), 20);
    assert_eq!(g.topo.chars().count(), 20);
    assert_eq!(g.corpo[0][7], Peca::Celula(0, 1));
    assert_eq!(g.corpo[0][8], Peca::Espacos(8));
    let g = tabela(&["A", "BB"], &vec![3, 2], 1, &corpo, 5);
    assert_eq!(g.larguras, vec![3, 2]);
}

#[test]
fn logo_em_camadas() {
    let l = logo(&["ab ", " c"], &["xyz", "", "w"]);
    assert_eq!(l.len(), 3);
    assert_eq!(l[0], vec![Traco::Marca('a'), Traco::Marca('b'), Traco::Arco('z')]);
    assert_eq!(l[1], vec![Traco::Vazio, Traco::Marca('c')]);
    assert_eq!(l[2], vec![Traco::Arco('w')]);
    assert_eq!(logo(&[], &[]).len(), 0);
}

#[test]
fn historico_limitado() {
    let mut f: VecDeque<u32> = VecDeque::from(vec![1, 2, 3]);
    empurra(&mut f, 4, 3);
    assert_eq!(f, VecDeque::from(vec![2, 3, 4]));
    empurra(&mut f, 5, 5);
    assert_eq!(f, VecDeque::from(vec![2, 3, 4, 5]));
    let mut g: VecDeque<u32> = VecDeque::new();
    for k in 0..50 {
        empurra(&mut g, k, 7);
        assert!(g.len() <= 7);
        assert_eq!(*g.back().unwrap(), k);
    }
    assert_eq!(g, (43..50).collect::<VecDeque<u32>>());
    let mut z: VecDeque<u32> = VecDeque::new();
    empurra(&mut z, 5, 0);
    empurra(&mut z, 6, 0);
    assert_eq!(z, VecDeque::from(vec![6]));
}

#[test]
fn historico_semeado_so_com_o_fim() {
    let mut f: VecDeque<u32> = VecDeque::new();
    semeia(&mut f, vec![1, 2, 3, 4, 5], 3);
    assert_eq!(f, VecDeque::from(vec![3, 4, 5]));
    let mut f: VecDeque<u32> = VecDeque::from(vec![9]);
    semeia(&mut f, vec![1, 2], 3);
    assert_eq!(f, VecDeque::from(vec![9, 1, 2]));
    assert_eq!(cauda(&vec![1, 2, 3], 2), vec![2, 3]);
    assert_eq!(cauda(&vec![1, 2, 3], 7), vec![1, 2, 3]);
    assert_eq!(cauda(&vec![1, 2, 3], 0), Vec::<i32>::new());
}

#[test]
fn nomes_de_container_unidos() {
    let a = vec!["web".to_string(), "db".to_string()];
    let b = vec!["db".to_string(), "cache".to_string(), "Zeta".to_string()];
    assert_eq!(nomes_containers(&a, &b), vec!["Zeta", "cache", "db", "web"]);
    assert_eq!(nomes_containers(&vec![], &vec![]), Vec::<String>::new());
}

fn largura(p: &Peca, titulos: &[&str], corpo: &[Vec<(usize, bool)>]) -> usize {
    match *p {
        Peca::Borda(_) => 1,
        Peca::Espacos(n) => n,
        Peca::Titulo(j) => titulos[j].chars().count(),
        Peca::Celula(k, j) => corpo[k][j].0,
    }
}

#[test]
fn linhas_da_tabela_na_mesma_largura() {
    let titulos = ["NOME", "CPU%", "é"];
    let corpo = vec![vec![(3, false), (4, true), (0, false)], vec![(5, false), (1, true), (2, true)]];
    for total in [0, 10, 26, 27, 40] {
        let g = tabela(&titulos, &vec![6, 5, 2], 0, &corpo, total);
        let natural = largura_natural(&vec![6, 5, 2]);
        let w = if total > natural { total } else { natural };
        assert_eq!(g.topo.chars().count(), w);
        assert_eq!(g.meio.chars().count(), w);
        assert_eq!(g.base.chars().count(), w);
        assert_eq!(g.titulos.iter().map(|p| largura(p, &titulos, &corpo)).sum::<usize>(), w);
        for l in &g.corpo {
            assert_eq!(l.iter().map(|p| largura(p, &titulos, &corpo)).sum::<usize>(), w);
        }
    }
}
