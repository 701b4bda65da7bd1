//! Confronta a biblioteca com modelos diretos, escritos com a biblioteca
//! padrao, em muitas entradas geradas.

use std::collections::HashMap;

use magi::cfg::Cor;
use magi::coleta::{nome_curto, parse_labels, parse_metrics, url_encode};
use magi::painel::{bloco, Cortes, Tela};
use magi::tempo::desloc_de;
use magi::ui::alvo_prometheus;

struct Gerador(u64);

impl Gerador {
    fn prox(&mut self, n: usize) -> usize {
        self.0 = self.0.wrapping_mul(6364136223846793005).wrapping_add(1442695040888963407);
        ((self.0 >> 33) % n as u64) as usize
    }

    fn texto(&mut self, alfabeto: &[char], max: usize) -> String {
        let n = self.prox(max + 1);
        (0..n).map(|_| alfabeto[self.prox(alfabeto.len())]).collect()
    }
}

fn modelo_rotulos(s: &str) -> HashMap<String, String> {
    let mut m = HashMap::new();
    let cs: Vec<char> = s.chars().collect();
    let mut i = 0;
    while i < cs.len() {
        let ini = i;
        while i < cs.len() && cs[i] != '=' {
            i += 1;
        }
        if i >= cs.len() {
            break;
        }
        let chave: String = cs[ini..i].iter().collect::<String>().trim().trim_start_matches(',').trim().to_string();
        i += 1;
        if i >= cs.len() || cs[i] != '"' {
            break;
        }
        i += 1;
        let vi = i;
        while i < cs.len() && cs[i] != '"' {
            i += 1;
        }
        let valor: String = cs[vi..i].iter().collect();
        if i < cs.len() {
            i += 1;
        }
        if !chave.is_empty() {
            m.insert(chave, valor);
        }
        while i < cs.len() && (cs[i] == ',' || cs[i].is_whitespace()) {
            i += 1;
        }
    }
    m
}

fn como_mapa(r: &magi::coleta::Rotulos) -> HashMap<String, String> {
    r.pares.iter().cloned().collect()
}

#[test]
fn rotulos_como_o_modelo() {
    let alfabeto = ['a', 'b', '=', '"', ',', ' ', '\t', 'é', '}', 'x'];
    let mut g = Gerador(7);
    for _ in 0..20000 {
        let s = g.texto(&alfabeto, 14);
        assert_eq!(como_mapa(&parse_labels(&s)), modelo_rotulos(&s), "{:?}", s);
    }
}

fn modelo_metricas(texto: &str) -> Vec<(String, HashMap<String, String>, String)> {
    let mut saida = Vec::new();
    for ln in texto.lines() {
        let ln = ln.trim();
        if ln.is_empty() || ln.starts_with('#') {
            continue;
        }
        if let Some(p) = ln.find('{') {
            let depois_espaco = |q: usize| ln[q + 1..].chars().next().map_or(false, char::is_whitespace);
            if let Some(q) = ln.rfind('}').filter(|&q| q > p && depois_espaco(q)) {
                // nome{rotulos} valor [tempo]
                if let Some(v) = ln[q + 1..].split_whitespace().next() {
                    saida.push((ln[..p].to_string(), modelo_rotulos(&ln[p + 1..q]), v.to_string()));
                }
                continue;
            }
            // bloco de rotulos sem fecho, ou sem espaco depois dele: o valor
            // e o ultimo pedaco
            let (cabeca, valor) = match ln.rsplit_once(char::is_whitespace) {
                Some(x) => x,
                None => continue,
            };
            let cabeca = cabeca.trim();
            let (nome, labels) = match cabeca.split_once('{') {
                Some((n, resto)) => (n, modelo_rotulos(resto.strip_suffix('}').unwrap_or(resto))),
                None => (cabeca, HashMap::new()),
            };
            saida.push((nome.to_string(), labels, valor.trim().to_string()));
        } else if let Some(w) = ln.find(char::is_whitespace) {
            // nome valor [tempo]
            let v = ln[w..].split_whitespace().next().unwrap();
            saida.push((ln[..w].to_string(), HashMap::new(), v.to_string()));
        }
    }
    saida
}

#[test]
fn metricas_como_o_modelo() {
    let alfabeto = ['a', '1', '=', '"', ',', ' ', '\n', '{', '}', '#', '\r', '.', '\u{a0}', ' ', '2'];
    let mut g = Gerador(11);
    for _ in 0..20000 {
        let s = g.texto(&alfabeto, 24);
        let r: Vec<(String, HashMap<String, String>, String)> = parse_metrics(&s)
            .into_iter()
            .map(|m| (m.nome, como_mapa(&m.rotulos), m.valor))
            .collect();
        assert_eq!(r, modelo_metricas(&s), "{:?}", s);
    }
}

fn modelo_nome_curto(nome: &str) -> (String, String, String, bool) {
    let simples = || (nome.to_string(), String::new(), String::new(), false);
    let partes: Vec<&str> = nome.split('.').collect();
    if partes.len() != 3 {
        return simples();
    }
    let (cabeca, slot, tarefa) = (partes[0], partes[1], partes[2]);
    let id_valido = |s: &str| s.len() >= 20 && s.chars().all(|c| c.is_ascii_alphanumeric());
    if !id_valido(tarefa) {
        return simples();
    }
    let slot_num = !slot.is_empty() && slot.chars().all(|c| c.is_ascii_digit());
    if !slot_num && !id_valido(slot) {
        return simples();
    }
    match cabeca.split_once('_') {
        Some((stack, svc)) if !stack.is_empty() && !svc.is_empty() => (
            format!("{}/{}{}", stack, svc, if slot_num { "" } else { "*" }),
            stack.to_string(),
            svc.to_string(),
            true,
        ),
        _ => simples(),
    }
}

#[test]
fn nome_curto_como_o_modelo() {
    let mut g = Gerador(3);
    let id = "abcdefghij0123456789";
    for _ in 0..20000 {
        let cabeca = g.texto(&['a', '_', 'b', '.'], 6);
        let slot = match g.prox(4) {
            0 => g.texto(&['1', '2', 'a'], 3),
            1 => id.to_string(),
            2 => format!("{}é", id),
            _ => String::new(),
        };
        let tarefa = match g.prox(3) {
            0 => id.to_string(),
            1 => id[..19].to_string(),
            _ => format!("{}-", id),
        };
        let n = format!("{}.{}.{}", cabeca, slot, tarefa);
        assert_eq!(nome_curto(&n), modelo_nome_curto(&n), "{:?}", n);
    }
}

#[test]
fn url_como_o_modelo() {
    let mut g = Gerador(5);
    let alfabeto = ['a', 'Z', '0', '-', '_', '.', '~', ' ', '/', '{', 'é', '\u{1f600}', '%'];
    for _ in 0..5000 {
        let s = g.texto(&alfabeto, 10);
        let mut esperado = String::new();
        for b in s.bytes() {
            match b {
                b'A'..=b'Z' | b'a'..=b'z' | b'0'..=b'9' | b'-' | b'_' | b'.' | b'~' => esperado.push(b as char),
                _ => esperado.push_str(&format!("%{:02X}", b)),
            }
        }
        assert_eq!(url_encode(&s), esperado);
    }
}

fn modelo_alvo(url: &str) -> Option<(String, u16)> {
    if url.is_empty() {
        return None;
    }
    let sem_esquema = url.split("://").nth(1).unwrap_or(url);
    let autoridade = sem_esquema.split('/').next().unwrap_or(sem_esquema);
    Some(match autoridade.rsplit_once(':') {
        Some((h, p)) => (h.to_string(), p.parse().unwrap_or(9090)),
        None => (autoridade.to_string(), 9090u16),
    })
}

#[test]
fn alvo_como_o_modelo() {
    let mut g = Gerador(9);
    let alfabeto = ['h', ':', '/', '8', '0', '+', 'é'];
    for _ in 0..20000 {
        let s = g.texto(&alfabeto, 12);
        assert_eq!(alvo_prometheus(&s), modelo_alvo(&s), "{:?}", s);
    }
}

fn modelo_desloc(s: &str) -> i64 {
    let s = s.trim();
    let sinal = if s.starts_with('-') { -1 } else { 1 };
    let h: Option<i64> = s.get(1..3).and_then(|x| x.parse().ok());
    let m: Option<i64> = s.get(3..5).and_then(|x| x.parse().ok());
    match (h, m) {
        (Some(h), Some(m)) => sinal * (h * 3600 + m * 60),
        _ => 0,
    }
}

#[test]
fn fuso_como_o_modelo() {
    let mut g = Gerador(13);
    let alfabeto = ['+', '-', '0', '3', '9', ' ', 'é', '\u{800}', '\u{10000}', 'x', '\n'];
    for _ in 0..50000 {
        let s = g.texto(&alfabeto, 8);
        assert_eq!(desloc_de(&s), modelo_desloc(&s), "{:?}", s);
    }
}

#[derive(Clone, Copy, PartialEq, Debug)]
struct Cel {
    ch: char,
    fg: Option<Cor>,
    bg: Option<Cor>,
}

const CHANFROS: [char; 4] = ['\u{259f}', '\u{2599}', '\u{259c}', '\u{259b}'];

#[allow(clippy::too_many_arguments)]
fn modelo_bloco(
    tela: &mut Vec<Vec<Cel>>,
    r0: usize,
    c0: usize,
    largura: usize,
    altura: usize,
    linhas: &[String],
    cor: Cor,
    cortes: [usize; 4],
) {
    let (alt_t, larg_t) = (tela.len(), tela[0].len());
    for i in 0..altura {
        let de_baixo = altura - 1 - i;
        for j in 0..largura {
            let mut diag: Option<char> = None;
            let mut vazio = false;
            let lados = [
                (CHANFROS[0], i < cortes[0], cortes[0].saturating_sub(1 + i), true),
                (CHANFROS[2], de_baixo < cortes[2], cortes[2].saturating_sub(1 + de_baixo), true),
                (CHANFROS[1], i < cortes[1], cortes[1].saturating_sub(1 + i), false),
                (CHANFROS[3], de_baixo < cortes[3], cortes[3].saturating_sub(1 + de_baixo), false),
            ];
            for (ch, ativo, corte, esquerda) in lados {
                if !ativo || corte == 0 {
                    continue;
                }
                if esquerda {
                    if j < corte {
                        vazio = true;
                    } else if j == corte {
                        diag = Some(ch);
                    }
                } else {
                    let lim = largura - 1 - corte;
                    if j > lim {
                        vazio = true;
                    } else if j == lim {
                        diag = Some(ch);
                    }
                }
            }
            let (r, c) = (r0 + i, c0 + j);
            if r < alt_t && c < larg_t {
                let cel = &mut tela[r][c];
                if let Some(d) = diag {
                    cel.ch = d;
                    cel.fg = Some(cor);
                } else if !vazio {
                    cel.ch = ' ';
                    cel.bg = Some(cor);
                }
            }
        }
    }
    if linhas.is_empty() || altura < linhas.len() {
        return;
    }
    let le = |tela: &Vec<Vec<Cel>>, r: usize, c: usize| -> Option<Cor> {
        if r < alt_t && c < larg_t {
            tela[r][c].bg
        } else {
            None
        }
    };
    let vao_em = |tela: &Vec<Vec<Cel>>, linha: usize| -> (usize, usize) {
        let cheias: Vec<usize> = (0..largura).filter(|j| le(tela, linha, c0 + j) == Some(cor)).collect();
        match (cheias.first(), cheias.last()) {
            (Some(a), Some(b)) => (*a, b - a + 1),
            _ => (0, 0),
        }
    };
    let meio = (altura - linhas.len()) / 2;
    let topo = (0..=(altura - linhas.len()))
        .max_by_key(|o| {
            let menor = (0..linhas.len()).map(|n| vao_em(tela, r0 + o + n).1).min().unwrap_or(0);
            (menor, usize::MAX - o.abs_diff(meio))
        })
        .unwrap_or(meio);
    for (n, texto) in linhas.iter().enumerate() {
        let linha = r0 + topo + n;
        let (esq, vao) = vao_em(tela, linha);
        if vao == 0 {
            continue;
        }
        let chars: Vec<char> = texto.chars().take(vao).collect();
        let ini = c0 + esq + (vao - chars.len()) / 2;
        for (k, ch) in chars.into_iter().enumerate() {
            if linha < alt_t && ini + k < larg_t {
                tela[linha][ini + k].ch = ch;
                tela[linha][ini + k].fg = Some(Cor::Preto);
            }
        }
    }
}

#[test]
fn bloco_como_o_modelo() {
    let mut g = Gerador(17);
    let cores = [Cor::Verde, Cor::Ambar, Cor::Fosco];
    for _ in 0..3000 {
        let (lt, at) = (1 + g.prox(14), 1 + g.prox(9));
        let mut tela = Tela::nova(lt, at);
        let mut modelo = vec![vec![Cel { ch: ' ', fg: None, bg: None }; lt]; at];
        for _ in 0..1 + g.prox(3) {
            let largura = 1 + g.prox(12);
            let altura = 1 + g.prox(8);
            let (r0, c0) = (g.prox(at + 2), g.prox(lt + 2));
            let cor = cores[g.prox(3)];
            let mut cs = [0usize; 4];
            for k in 0..4 {
                if g.prox(2) == 0 {
                    cs[k] = g.prox(largura.max(altura) + 3);
                }
            }
            // um corte da direita maior que a largura nao tem onde cair
            if cs[1] > largura || cs[3] > largura {
                continue;
            }
            let n = g.prox(4);
            let linhas: Vec<String> = (0..n).map(|_| g.texto(&['A', 'b', ' ', '-'], 9)).collect();
            let cortes = Cortes { tl: cs[0], tr: cs[1], bl: cs[2], br: cs[3] };
            bloco(&mut tela, r0, c0, largura, altura, &linhas, cor, cortes);
            modelo_bloco(&mut modelo, r0, c0, largura, altura, &linhas, cor, cs);
        }
        for r in 0..at {
            for c in 0..lt {
                let x = tela.le(r, c);
                assert_eq!(Cel { ch: x.ch, fg: x.fg, bg: x.bg }, modelo[r][c], "{} {}", r, c);
            }
        }
    }
}

use magi::cfg::{ClusterCfg, No};
use magi::cluster::{buscar, Coleta, Serie};
use magi::coleta::Rotulos;
use magi::tabela::{tabela, Peca};

fn serie(g: &mut Gerador, chaves: &[&str]) -> Serie<u32> {
    let mut r = Rotulos::novo();
    for _ in 0..g.prox(4) {
        let k = chaves[g.prox(chaves.len())];
        let v = ["a", "b", "c", "", "x1", "x2"][g.prox(6)];
        r.insere(k.to_string(), v.to_string());
    }
    Serie { rotulos: r, valor: g.prox(3) as u32 }
}

fn modelo_sigla(caixa: &str, nos: &[No]) -> String {
    if caixa.is_empty() {
        return "?".into();
    }
    for n in nos {
        if !n.caixa.is_empty() && n.caixa == caixa {
            return if n.sigla.is_empty() { n.nome.chars().take(3).collect() } else { n.sigla.clone() };
        }
    }
    "?".into()
}

#[test]
fn juncao_por_tenant_como_o_modelo() {
    let mut g = Gerador(23);
    let chaves = ["tenant", "box", "instance"];
    for _ in 0..3000 {
        let c = ClusterCfg {
            job_banco: "db".into(),
            job_replica: String::new(),
            job_sonda: String::new(),
            label_tenant: "tenant".into(),
            label_box: "box".into(),
            servico_app: ["app", ""][g.prox(2)].into(),
            servico_banco: ["db", ""][g.prox(2)].into(),
        };
        let nos: Vec<No> = (0..g.prox(4))
            .map(|_| No {
                nome: ["BALTHASAR", "CA", ""][g.prox(3)].into(),
                ord: String::new(),
                ip: String::new(),
                prom: String::new(),
                caixa: ["x1", "x2", ""][g.prox(3)].into(),
                sigla: ["", "S"][g.prox(2)].into(),
                papel: String::new(),
            })
            .collect();
        let mut gera = |g: &mut Gerador, n: usize| -> Vec<Serie<u32>> { (0..g.prox(n)).map(|_| serie(g, &chaves)).collect() };
        let d = Coleta {
            prim: gera(&mut g, 6),
            rep_io: gera(&mut g, 4),
            rep_sql: gera(&mut g, 4),
            rep_lag: gera(&mut g, 4),
            sonda: gera(&mut g, 4),
            atraso: gera(&mut g, 4),
            hist: (0..g.prox(4)).map(|_| ["a", "b", "c", ""][g.prox(4)].to_string()).collect(),
            uso: (0..g.prox(5))
                .map(|_| (["a", "b", ""][g.prox(3)].to_string(), ["app", "db", "x"][g.prox(3)].to_string(), g.prox(9) as u8))
                .collect(),
        };
        let r = buscar(Some(&c), &nos, &d);
        if d.prim.is_empty() {
            assert_eq!(r.err(), Some("sem resposta do Prometheus".to_string()));
            continue;
        }
        let ls = r.ok().unwrap();
        let por = |s: &[Serie<u32>], chave: &str| -> HashMap<String, u32> {
            s.iter().map(|x| (x.rotulo(chave), x.valor)).collect()
        };
        let caixa_de = |s: &[Serie<u32>]| -> HashMap<String, String> {
            s.iter().map(|x| (x.rotulo("tenant"), x.rotulo("box"))).collect()
        };
        let v_prim = por(&d.prim, "tenant");
        let v_io = por(&d.rep_io, "tenant");
        let v_sql = por(&d.rep_sql, "tenant");
        let v_lag = por(&d.rep_lag, "tenant");
        let v_sonda = por(&d.sonda, "instance");
        let v_atraso = por(&d.atraso, "instance");
        let caixa_prim = caixa_de(&d.prim);
        let caixa_rep = caixa_de(&d.rep_io);
        let mut uso: HashMap<(String, String), u8> = HashMap::new();
        for (stack, svc, u) in &d.uso {
            if stack.is_empty() {
                continue;
            }
            if *svc == c.servico_app || *svc == c.servico_banco {
                uso.insert((stack.clone(), svc.clone()), *u);
            }
        }
        let hist: HashMap<String, usize> = d.hist.iter().enumerate().map(|(i, h)| (h.clone(), i)).collect();
        let mut tenants: Vec<String> = v_prim.keys().cloned().filter(|t| !t.is_empty()).collect();
        tenants.sort();
        assert_eq!(ls.len(), tenants.len());
        for (l, t) in ls.iter().zip(tenants.iter()) {
            assert_eq!(&l.tenant, t);
            let tem_rep = v_io.contains_key(t);
            assert_eq!(l.no, modelo_sigla(caixa_prim.get(t).map(|s| s.as_str()).unwrap_or(""), &nos));
            assert_eq!(
                l.no_rep,
                if tem_rep { modelo_sigla(caixa_rep.get(t).map(|s| s.as_str()).unwrap_or(""), &nos) } else { "-".into() }
            );
            assert_eq!(Some(l.prim), v_prim.get(t).copied());
            assert_eq!(l.rep_io, v_io.get(t).copied());
            assert_eq!(l.rep_sql, v_sql.get(t).copied());
            assert_eq!(l.rep_lag, v_lag.get(t).copied());
            assert_eq!(l.site, v_sonda.get(t).copied());
            assert_eq!(l.latencia, v_atraso.get(t).copied());
            let app = if c.servico_app.is_empty() { None } else { uso.get(&(t.clone(), c.servico_app.clone())).copied() };
            let db = if c.servico_banco.is_empty() { None } else { uso.get(&(t.clone(), c.servico_banco.clone())).copied() };
            assert_eq!((l.app, l.db), (app, db));
            assert_eq!(l.hist, hist.get(t).copied());
        }
    }
}

#[test]
fn tabela_como_o_modelo() {
    let mut g = Gerador(29);
    for _ in 0..3000 {
        let n = g.prox(5);
        let larguras: Vec<usize> = (0..n).map(|_| g.prox(6)).collect();
        let titulos_s: Vec<String> = (0..g.prox(n + 1)).map(|_| g.texto(&['T', 'é'], 5)).collect();
        let titulos: Vec<&str> = titulos_s.iter().map(|s| s.as_str()).collect();
        let corpo: Vec<Vec<(usize, bool)>> = (0..g.prox(4))
            .enumerate()
            .map(|(k, _)| {
                let m = if k == 0 { n } else { g.prox(n + 1) };
                (0..m).map(|_| (g.prox(8), g.prox(2) == 0)).collect()
            })
            .collect();
        let flexivel = g.prox(n.max(1));
        let total = g.prox(40);
        if n == 0 && total > 1 {
            continue;
        }
        let gr = tabela(&titulos, &larguras, flexivel, &corpo, total);
        let mut ls = larguras.clone();
        let ocupado: usize = ls.iter().map(|l| l + 2).sum::<usize>() + ls.len() + 1;
        if total > ocupado {
            ls[flexivel] += total - ocupado;
        }
        assert_eq!(gr.larguras, ls);
        let regua = |esq: &str, meio: &str, dir: &str, traco: &str| {
            let mut s = String::from(esq);
            for (i, l) in ls.iter().enumerate() {
                s.push_str(&traco.repeat(l + 2));
                s.push_str(if i + 1 == ls.len() { dir } else { meio });
            }
            s
        };
        assert_eq!(gr.topo, regua("┏", "┳", "┓", "━"));
        assert_eq!(gr.meio, regua("┡", "╇", "┩", "━"));
        assert_eq!(gr.base, regua("└", "┴", "┘", "─"));
        let linha = |cs: &[(usize, bool)], mk: &dyn Fn(usize) -> Peca, forte: bool| {
            let mut v = vec![Peca::Borda(forte)];
            for (i, (lc, dir)) in cs.iter().enumerate() {
                v.push(Peca::Espacos(1));
                let folga = ls[i].saturating_sub(*lc);
                let (antes, depois) = if *dir { (folga, 0) } else { (0, folga) };
                if antes > 0 {
                    v.push(Peca::Espacos(antes));
                }
                v.push(mk(i));
                if depois > 0 {
                    v.push(Peca::Espacos(depois));
                }
                v.push(Peca::Espacos(1));
                v.push(Peca::Borda(forte));
            }
            v
        };
        let dir: Vec<bool> = (0..n).map(|i| corpo.first().map(|l| l[i].1).unwrap_or(false)).collect();
        let cab: Vec<(usize, bool)> = titulos.iter().enumerate().map(|(i, t)| (t.chars().count(), dir[i])).collect();
        assert_eq!(gr.titulos, linha(&cab, &|j| Peca::Titulo(j), true));
        for (k, cs) in corpo.iter().enumerate() {
            assert_eq!(gr.corpo[k], linha(cs, &|j| Peca::Celula(k, j), false));
        }
    }
}

use magi::json::Json;
use magi::resposta::{
    nomes_da_resposta, nomes_do_texto, pontos_da_primeira, pontos_do_texto, series_da_resposta,
    series_do_texto,
};

fn de_valor(v: &serde_json::Value) -> magi::json::Json {
    match v {
        serde_json::Value::Null => Json::Nulo,
        serde_json::Value::Bool(b) => Json::Booleano(*b),
        serde_json::Value::Number(n) => Json::Numero(n.as_u64()),
        serde_json::Value::String(s) => Json::Texto(s.clone()),
        serde_json::Value::Array(a) => Json::Lista(a.iter().map(de_valor).collect()),
        serde_json::Value::Object(m) => Json::Objeto(m.iter().map(|(k, x)| (k.clone(), de_valor(x))).collect()),
    }
}

fn json_aleatorio(g: &mut Gerador, fundo: usize) -> String {
    let folha = ["null", "1", "\"1.5\"", "\"x\"", "true", "\"name\"", "[1,\"2\"]"];
    if fundo == 0 {
        return folha[g.prox(folha.len())].to_string();
    }
    match g.prox(4) {
        0 => folha[g.prox(folha.len())].to_string(),
        1 => {
            let n = g.prox(4);
            let itens: Vec<String> = (0..n).map(|_| json_aleatorio(g, fundo - 1)).collect();
            format!("[{}]", itens.join(","))
        }
        _ => {
            let chaves = ["data", "result", "metric", "value", "values", "name", "tenant"];
            let n = g.prox(4);
            let itens: Vec<String> = (0..n)
                .map(|_| format!("\"{}\":{}", chaves[g.prox(chaves.len())], json_aleatorio(g, fundo - 1)))
                .collect();
            format!("{{{}}}", itens.join(","))
        }
    }
}

#[test]
fn respostas_do_prometheus_como_o_modelo() {
    let mut g = Gerador(31);
    for _ in 0..4000 {
        let corpo = format!("{{\"data\":{{\"result\":{}}}}}", json_aleatorio(&mut g, 4));
        let json: serde_json::Value = serde_json::from_str(&corpo).unwrap();
        let j = de_valor(&json);
        // series: rotulos de texto de `metric` e o texto de `value[1]`
        let mut esperado = Vec::new();
        let mut nomes = Vec::new();
        if let Some(res) = json["data"]["result"].as_array() {
            for s in res {
                let mut rot: Vec<(String, String)> = Vec::new();
                if let Some(m) = s["metric"].as_object() {
                    for (k, v) in m {
                        if let Some(t) = v.as_str() {
                            rot.push((k.clone(), t.to_string()));
                        }
                    }
                }
                if let Some(v) = s["value"][1].as_str() {
                    esperado.push((rot, v.to_string()));
                    nomes.push((s["metric"]["name"].as_str().unwrap_or("?").to_string(), v.to_string()));
                }
            }
        }
        let r: Vec<(Vec<(String, String)>, String)> =
            series_da_resposta(&j).into_iter().map(|(r, v)| (r.pares, v)).collect();
        assert_eq!(r, esperado, "{}", corpo);
        assert_eq!(nomes_da_resposta(&j), nomes, "{}", corpo);
        let pontos: Vec<String> = json["data"]["result"][0]["values"]
            .as_array()
            .map(|vs| vs.iter().filter_map(|p| p[1].as_str().map(|x| x.to_string())).collect())
            .unwrap_or_default();
        assert_eq!(pontos_da_primeira(&j), pontos, "{}", corpo);
        // do corpo em texto, lido pela biblioteca, sai o mesmo
        let r: Vec<(Vec<(String, String)>, String)> =
            series_do_texto(&corpo).into_iter().map(|(r, v)| (r.pares, v)).collect();
        assert_eq!(r, esperado, "{}", corpo);
        assert_eq!(nomes_do_texto(&corpo), nomes, "{}", corpo);
        assert_eq!(pontos_do_texto(&corpo), pontos, "{}", corpo);
    }
}
