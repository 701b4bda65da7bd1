//! Configuracao e paleta.
//!
//! A lista de nos nao fica no codigo de proposito: cada instalacao tem a sua,
//! e assim da pra versionar o programa sem versionar o inventario.
use vstd::prelude::*;

use crate::json::{self, Json};
use crate::texto;

verus! {

/// As cores da interface. Vermelho e so para OFFLINE; o topo da escala de
/// uso e laranja forte.
#[derive(Clone, Copy, PartialEq, Eq, Structural, Debug)]
pub enum Cor {
    Ambar,
    Laranja,
    Vermelho,
    LaranjaForte,
    Verde,
    Fosco,
    Ciano,
    /// Arcos de fundo do logo.
    VerdeArco,
    /// Texto vazado dentro dos blocos do painel.
    Preto,
}

/// O RGB de cada cor.
pub open spec fn rgb_spec(c: Cor) -> (u8, u8, u8) {
    match c {
        Cor::Ambar => (0xff, 0xb0, 0x00),
        Cor::Laranja => (0xff, 0x7b, 0x00),
        Cor::Vermelho => (0xff, 0x31, 0x31),
        Cor::LaranjaForte => (0xff, 0x5f, 0x00),
        Cor::Verde => (0x7d, 0xff, 0x7d),
        Cor::Fosco => (0x8a, 0x5a, 0x00),
        Cor::Ciano => (0x00, 0xd7, 0xff),
        Cor::VerdeArco => (0x2f, 0x6b, 0x52),
        Cor::Preto => (0x0c, 0x0c, 0x0c),
    }
}

impl Cor {
    pub fn rgb(&self) -> (r: (u8, u8, u8))
        ensures
            r == rgb_spec(*self),
    {
        match self {
            Cor::Ambar => (0xff, 0xb0, 0x00),
            Cor::Laranja => (0xff, 0x7b, 0x00),
            Cor::Vermelho => (0xff, 0x31, 0x31),
            Cor::LaranjaForte => (0xff, 0x5f, 0x00),
            Cor::Verde => (0x7d, 0xff, 0x7d),
            Cor::Fosco => (0x8a, 0x5a, 0x00),
            Cor::Ciano => (0x00, 0xd7, 0xff),
            Cor::VerdeArco => (0x2f, 0x6b, 0x52),
            Cor::Preto => (0x0c, 0x0c, 0x0c),
        }
    }
}

pub struct No {
    pub nome: String,
    pub ord: String,
    pub ip: String,
    /// Como a maquina aparece no label `instance` do Prometheus.
    pub prom: String,
    /// Como a maquina aparece no label de caixa das metricas de banco. Costuma
    /// divergir do `prom`: os dois nomes mudam em momentos diferentes, e um nao
    /// deduz o outro. Vazio significa "este no nao hospeda tenant".
    pub caixa: String,
    /// Rotulo curto do no na aba CLUSTER, onde a coluna tem tres colunas.
    pub sigla: String,
    pub papel: String,
}

/// Nomes de job e de label da instalacao. Sem este bloco a aba CLUSTER nao
/// existe: a vista por tenant depende de saber como o Prometheus local chama
/// as coisas, e isso nao da para adivinhar.
pub struct ClusterCfg {
    pub job_banco: String,
    pub job_replica: String,
    pub job_sonda: String,
    pub label_tenant: String,
    pub label_box: String,
    /// Nome do servico da aplicacao dentro da stack de cada tenant.
    pub servico_app: String,
    pub servico_banco: String,
}

pub struct Config {
    pub prometheus: String,
    pub intervalo_host: u64,
    pub intervalo_container: u64,
    pub historico: usize,
    /// Prefixo que identifica um container de tenant, pro veredito saber o
    /// que contar. Vazio desliga a contagem.
    pub prefixo_tenant: String,
    /// Tamanho em que o painel cabe sem quebrar linha: a largura vem da aba
    /// GERAL e a altura da aba DIAGRAMA, que e a mais alta.
    pub largura_ideal: u16,
    pub altura_ideal: u16,
    /// Nos que nao rodam cAdvisor: dizem o motivo em vez de tabela vazia.
    pub sem_cadvisor: Vec<String>,
    /// Janela da faixa de disponibilidade, em minutos, e quantos blocos ela
    /// tem. Largura fixa porque a faixa e janela de tempo, nao proporcao.
    pub janela_sonda: i64,
    pub blocos_sonda: usize,
    pub cluster: Option<ClusterCfg>,
    pub nos: Vec<No>,
}

impl Config {
    pub fn tem_cluster(&self) -> (r: bool)
        ensures
            r == self.cluster.is_some(),
    {
        self.cluster.is_some()
    }

    pub fn sem_cadvisor(&self, prom: &str) -> (r: bool)
        ensures
            r == exists|i: int|
                0 <= i < self.sem_cadvisor.len() && #[trigger] self.sem_cadvisor@[i]@ == prom@,
    {
        let mut i: usize = 0;
        while i < self.sem_cadvisor.len()
            invariant
                i <= self.sem_cadvisor.len(),
                forall|k: int| 0 <= k < i ==> #[trigger] self.sem_cadvisor@[k]@ != prom@,
            decreases self.sem_cadvisor.len() - i,
        {
            if texto::str_igual(self.sem_cadvisor[i].as_str(), prom) {
                return true;
            }
            i = i + 1;
        }
        false
    }
}

/// A configuracao carregada. Chamar antes de carregar e erro de programa.
pub fn get(carga: Option<&Config>) -> (r: &Config)
    requires
        carga is Some,
    ensures
        r == carga.unwrap(),
{
    carga.unwrap()
}

} // verus!

verus! {

/// Um no lido de um item de `unidades`: nome `?` se faltar, o resto vazio.
pub open spec fn no_conforme(n: No, u: Json) -> bool {
    &&& n.nome@ == json::texto_ou(u, "nome"@, "?"@)
    &&& n.ord@ == json::texto_ou(u, "ord"@, ""@)
    &&& n.ip@ == json::texto_ou(u, "ip"@, ""@)
    &&& n.prom@ == json::texto_ou(u, "prom"@, ""@)
    &&& n.caixa@ == json::texto_ou(u, "caixa"@, ""@)
    &&& n.sigla@ == json::texto_ou(u, "sigla"@, ""@)
    &&& n.papel@ == json::texto_ou(u, "papel"@, ""@)
}

/// O bloco `cluster`: so existe quando `job_banco` e um texto nao vazio; o
/// resto tem valor padrao.
pub open spec fn cluster_conforme(c: Option<ClusterCfg>, bc: Json) -> bool {
    match json::como_texto(json::campo_spec(bc, "job_banco"@)) {
        Some(jb) if jb.len() > 0 => match c {
            Some(c) => {
                &&& c.job_banco@ == jb
                &&& c.job_replica@ == json::texto_ou(bc, "job_replica"@, ""@)
                &&& c.job_sonda@ == json::texto_ou(bc, "job_sonda"@, ""@)
                &&& c.label_tenant@ == json::texto_ou(bc, "label_tenant"@, "tenant"@)
                &&& c.label_box@ == json::texto_ou(bc, "label_box"@, "box"@)
                &&& c.servico_app@ == json::texto_ou(bc, "servico_app"@, ""@)
                &&& c.servico_banco@ == json::texto_ou(bc, "servico_banco"@, ""@)
            },
            None => false,
        },
        _ => c is None,
    }
}

/// Os textos de uma lista JSON, na ordem, pulando o que nao e texto.
pub open spec fn textos_da_lista(l: Seq<Json>) -> Seq<Seq<char>>
    decreases l.len(),
{
    if l.len() == 0 {
        Seq::empty()
    } else {
        let resto = textos_da_lista(l.drop_last());
        match json::como_texto(l.last()) {
            Some(s) => resto.push(s),
            None => resto,
        }
    }
}

/// A configuracao que um documento descreve. `prom_env`, quando dado, vale
/// mais que o campo `prometheus`.
pub open spec fn config_conforme(c: Config, j: Json, prom_env: Option<Seq<char>>) -> bool {
    let unidades = json::como_lista(json::campo_spec(j, "unidades"@)).unwrap();
    &&& c.nos.len() == unidades.len()
    &&& forall|i: int| 0 <= i < unidades.len() ==> no_conforme(#[trigger] c.nos@[i], unidades[i])
    &&& c.prometheus@ == (match prom_env {
        Some(p) => p,
        None => json::texto_ou(j, "prometheus"@, ""@),
    })
    &&& c.intervalo_host == json::numero_ou(j, "intervalo_host"@, 1)
    &&& c.intervalo_container == json::numero_ou(j, "intervalo_container"@, 3)
    &&& c.historico == json::numero_ou(j, "historico"@, 60) as usize
    &&& c.prefixo_tenant@ == json::texto_ou(j, "prefixo_tenant"@, ""@)
    &&& c.largura_ideal == json::numero_ou(j, "largura_ideal"@, 106) as u16
    &&& c.altura_ideal == json::numero_ou(j, "altura_ideal"@, 40) as u16
    &&& texto::vistas(c.sem_cadvisor@) == (match json::como_lista(
        json::campo_spec(j, "sem_cadvisor"@),
    ) {
        Some(l) => textos_da_lista(l),
        None => Seq::empty(),
    })
    &&& c.janela_sonda == json::numero_ou(j, "janela_sonda"@, 30) as i64
    &&& c.blocos_sonda == json::numero_ou(j, "blocos_sonda"@, 30) as usize
    &&& cluster_conforme(c.cluster, json::campo_spec(j, "cluster"@))
}

fn no_de(u: &Json) -> (n: No)
    ensures
        no_conforme(n, *u),
{
    No {
        nome: json::texto_ou_de(u, "nome", "?"),
        ord: json::texto_ou_de(u, "ord", ""),
        ip: json::texto_ou_de(u, "ip", ""),
        prom: json::texto_ou_de(u, "prom", ""),
        caixa: json::texto_ou_de(u, "caixa", ""),
        sigla: json::texto_ou_de(u, "sigla", ""),
        papel: json::texto_ou_de(u, "papel", ""),
    }
}

fn cluster_de(bc: &Json) -> (c: Option<ClusterCfg>)
    ensures
        cluster_conforme(c, *bc),
{
    match bc.campo("job_banco").como_texto() {
        Some(jb) => {
            if jb.as_str().is_empty() {
                None
            } else {
                Some(
                    ClusterCfg {
                        job_banco: jb.clone(),
                        job_replica: json::texto_ou_de(bc, "job_replica", ""),
                        job_sonda: json::texto_ou_de(bc, "job_sonda", ""),
                        label_tenant: json::texto_ou_de(bc, "label_tenant", "tenant"),
                        label_box: json::texto_ou_de(bc, "label_box", "box"),
                        servico_app: json::texto_ou_de(bc, "servico_app", ""),
                        servico_banco: json::texto_ou_de(bc, "servico_banco", ""),
                    },
                )
            }
        },
        None => None,
    }
}

fn textos_de(l: &Vec<Json>) -> (r: Vec<String>)
    ensures
        texto::vistas(r@) == textos_da_lista(l@),
{
    let mut r: Vec<String> = Vec::new();
    let mut i: usize = 0;
    assert(texto::vistas(r@) =~= textos_da_lista(l@.take(0)));
    while i < l.len()
        invariant
            i <= l.len(),
            texto::vistas(r@) == textos_da_lista(l@.take(i as int)),
        decreases l.len() - i,
    {
        assert(l@.take(i + 1).drop_last() =~= l@.take(i as int));
        let ghost antes = texto::vistas(r@);
        match l[i].como_texto() {
            Some(s) => {
                r.push(s.clone());
                assert(texto::vistas(r@) =~= antes.push(s@));
            },
            None => {},
        }
        i = i + 1;
    }
    assert(l@.take(l.len() as int) =~= l@);
    r
}

/// O que falta no documento para haver configuracao.
pub open spec fn erro_de_config(j: Json) -> Option<Seq<char>> {
    match json::como_lista(json::campo_spec(j, "unidades"@)) {
        None => Some("configuracao sem a lista `unidades`"@),
        Some(l) => if l.len() == 0 {
            Some("configuracao sem nenhuma unidade"@)
        } else {
            None
        },
    }
}

/// Monta a configuracao a partir do texto do arquivo em `caminho`. Texto que
/// nao e JSON da o erro `"<caminho>: <erro do serde_json>"`; um documento
/// lido segue como em `de_json`.
pub fn config_de_texto(caminho: &str, bruto: &str, prom_env: Option<String>) -> (r: Result<
    Config,
    String,
>)
    ensures
        match json::json_lido(bruto@) {
            Err(e) => match r {
                Err(m) => m@ == caminho@ + ": "@ + e,
                Ok(_) => false,
            },
            Ok(j) => match r {
                Ok(c) => erro_de_config(j) is None && config_conforme(
                    c,
                    j,
                    match prom_env {
                        Some(p) => Some(p@),
                        None => None,
                    },
                ),
                Err(e) => erro_de_config(j) == Some(e@),
            },
        },
{
    match json::le_json(bruto) {
        Ok(j) => de_json(&j, prom_env),
        Err(e) => {
            let mut m: Vec<char> = Vec::new();
            texto::junta_str(&mut m, caminho);
            texto::junta_str(&mut m, ": ");
            texto::junta_str(&mut m, e.as_str());
            Err(texto::string_de(&m))
        },
    }
}

/// Monta a configuracao a partir do documento ja lido. `prom_env` e o valor
/// de `MAGI_PROM`, se houver.
pub fn de_json(j: &Json, prom_env: Option<String>) -> (r: Result<Config, String>)
    ensures
        match r {
            Ok(c) => erro_de_config(*j) is None && config_conforme(
                c,
                *j,
                match prom_env {
                    Some(p) => Some(p@),
                    None => None,
                },
            ),
            Err(e) => erro_de_config(*j) == Some(e@),
        },
{
    let lista = match j.campo("unidades").como_lista() {
        Some(l) => l,
        None => {
            return Err("configuracao sem a lista `unidades`".to_owned());
        },
    };
    let mut nos: Vec<No> = Vec::new();
    let mut i: usize = 0;
    while i < lista.len()
        invariant
            i <= lista.len(),
            nos.len() == i,
            forall|k: int| 0 <= k < i ==> no_conforme(#[trigger] nos@[k], lista@[k]),
        decreases lista.len() - i,
    {
        nos.push(no_de(&lista[i]));
        i = i + 1;
    }
    if nos.len() == 0 {
        return Err("configuracao sem nenhuma unidade".to_owned());
    }
    let cluster = cluster_de(j.campo("cluster"));
    let sem_cadvisor = match j.campo("sem_cadvisor").como_lista() {
        Some(l) => textos_de(l),
        None => {
            let v: Vec<String> = Vec::new();
            assert(texto::vistas(v@) =~= Seq::<Seq<char>>::empty());
            v
        },
    };
    let prometheus = match prom_env {
        Some(p) => p,
        None => json::texto_ou_de(j, "prometheus", ""),
    };
    Ok(
        Config {
            prometheus,
            intervalo_host: json::numero_ou_de(j, "intervalo_host", 1),
            intervalo_container: json::numero_ou_de(j, "intervalo_container", 3),
            historico: json::numero_ou_de(j, "historico", 60) as usize,
            prefixo_tenant: json::texto_ou_de(j, "prefixo_tenant", ""),
            largura_ideal: json::numero_ou_de(j, "largura_ideal", 106) as u16,
            altura_ideal: json::numero_ou_de(j, "altura_ideal", 40) as u16,
            sem_cadvisor,
            janela_sonda: json::numero_ou_de(j, "janela_sonda", 30) as i64,
            blocos_sonda: json::numero_ou_de(j, "blocos_sonda", 30) as usize,
            cluster,
            nos,
        },
    )
}

} // verus!

verus! {

/// Os campos que faltam no documento tomam os valores padrao: Prometheus
/// vazio (ou o do ambiente), coleta de host a cada 1 s e de containers a
/// cada 3 s, 60 amostras de historico, janela e faixa de 30, tela ideal de
/// 106 por 40, nenhum prefixo, nenhuma unidade sem cAdvisor e nenhum bloco
/// de cluster.
pub proof fn lei_padroes(c: Config, j: Json, prom_env: Option<Seq<char>>)
    requires
        forall|k: Seq<char>| k != "unidades"@ ==> #[trigger] json::campo_spec(j, k) == Json::Nulo,
        config_conforme(c, j, prom_env),
    ensures
        c.prometheus@ == (match prom_env {
            Some(p) => p,
            None => Seq::<char>::empty(),
        }),
        c.intervalo_host == 1,
        c.intervalo_container == 3,
        c.historico == 60,
        c.prefixo_tenant@.len() == 0,
        c.largura_ideal == 106,
        c.altura_ideal == 40,
        c.sem_cadvisor.len() == 0,
        c.janela_sonda == 30,
        c.blocos_sonda == 30,
        c.cluster is None,
{
    reveal_strlit("");
    reveal_strlit("unidades");
    reveal_strlit("prometheus");
    reveal_strlit("intervalo_host");
    reveal_strlit("intervalo_container");
    reveal_strlit("historico");
    reveal_strlit("prefixo_tenant");
    reveal_strlit("largura_ideal");
    reveal_strlit("altura_ideal");
    reveal_strlit("sem_cadvisor");
    reveal_strlit("janela_sonda");
    reveal_strlit("blocos_sonda");
    reveal_strlit("cluster");
    reveal_strlit("job_banco");
    assert("prometheus"@[0] != "unidades"@[0]);
    assert(json::campo_spec(j, "prometheus"@) == Json::Nulo);
    assert("intervalo_host"@[0] != "unidades"@[0]);
    assert(json::campo_spec(j, "intervalo_host"@) == Json::Nulo);
    assert("intervalo_container"@[0] != "unidades"@[0]);
    assert(json::campo_spec(j, "intervalo_container"@) == Json::Nulo);
    assert("historico"@[0] != "unidades"@[0]);
    assert(json::campo_spec(j, "historico"@) == Json::Nulo);
    assert("prefixo_tenant"@[0] != "unidades"@[0]);
    assert(json::campo_spec(j, "prefixo_tenant"@) == Json::Nulo);
    assert("largura_ideal"@[0] != "unidades"@[0]);
    assert(json::campo_spec(j, "largura_ideal"@) == Json::Nulo);
    assert("altura_ideal"@[0] != "unidades"@[0]);
    assert(json::campo_spec(j, "altura_ideal"@) == Json::Nulo);
    assert("sem_cadvisor"@[0] != "unidades"@[0]);
    assert(json::campo_spec(j, "sem_cadvisor"@) == Json::Nulo);
    assert("janela_sonda"@[0] != "unidades"@[0]);
    assert(json::campo_spec(j, "janela_sonda"@) == Json::Nulo);
    assert("blocos_sonda"@[0] != "unidades"@[0]);
    assert(json::campo_spec(j, "blocos_sonda"@) == Json::Nulo);
    assert("cluster"@[0] != "unidades"@[0]);
    assert(json::campo_spec(j, "cluster"@) == Json::Nulo);
    assert(json::campo_spec(Json::Nulo, "job_banco"@) == Json::Nulo);
    assert(texto::vistas(c.sem_cadvisor@).len() == 0);
}

/// Um item de `unidades` sem nenhum campo vira um no de nome `?` com todo o
/// resto vazio.
pub proof fn lei_no_sem_campos(n: No, u: Json)
    requires
        forall|k: Seq<char>| #[trigger] json::campo_spec(u, k) == Json::Nulo,
        no_conforme(n, u),
    ensures
        n.nome@ == "?"@,
        n.ord@.len() == 0,
        n.ip@.len() == 0,
        n.prom@.len() == 0,
        n.caixa@.len() == 0,
        n.sigla@.len() == 0,
        n.papel@.len() == 0,
{
    assert(json::campo_spec(u, "nome"@) == Json::Nulo);
    assert(json::campo_spec(u, "ord"@) == Json::Nulo);
    assert(json::campo_spec(u, "ip"@) == Json::Nulo);
    assert(json::campo_spec(u, "prom"@) == Json::Nulo);
    assert(json::campo_spec(u, "caixa"@) == Json::Nulo);
    assert(json::campo_spec(u, "sigla"@) == Json::Nulo);
    assert(json::campo_spec(u, "papel"@) == Json::Nulo);
    reveal_strlit("");
}

} // verus!
