# magi

Monitor de cluster no terminal, no estilo da HUD do sistema MAGI: coleta o
node_exporter de cada maquina e o Prometheus, e mostra abas GERAL, uma por
unidade, DIAGRAMA e, quando configurada, CLUSTER (uma linha por tenant).

## Organizacao

- `src/` e a biblioteca verificada com Verus: cada funcao publica tem um
  contrato (`requires`/`ensures`) sobre funcoes de especificacao, e as leis
  (`lei_*`) sao funcoes de prova publicas.
  - `texto`: conversoes entre `str`, `String` e `Vec<char>`, `trim`, ordem
    de `String`, ordenacao, busca de trechos, decimal.
  - `json`, `cfg`: o texto JSON lido pelo serde_json (a chamada fica atras
    de um contrato que so da nome ao resultado), e a configuracao que o
    documento descreve, com os erros de quando ela falta.
  - `coleta`: rotulos e linhas do formato texto do Prometheus, nome de task
    do Swarm, filtros de interface e disco, tipo do erro de rede, URLs do
    node_exporter e das consultas ao Prometheus.
  - `resposta`: o que se le do corpo das respostas da API do Prometheus
    (series, rotulos, textos dos valores e dos pontos).
  - `historico`: a fila limitada dos graficos.
  - `cluster`, `swarm`: a juncao das series por tenant, as consultas, a
    faixa de disponibilidade e as contas do quadro do Swarm.
  - `painel`, `tabela`, `logo`: o diagrama em celulas, as tabelas em
    pedacos e o simbolo em camadas.
  - `ui`, `tempo`: teclas e abas, o pedido de tamanho ao terminal, o alvo do
    Prometheus, texto colorido, data civil, relogio, fuso e duracao.
- `app/` e o programa: terminal (crossterm, ratatui), rede (ureq), leitura
  do arquivo, threads, e o que depende de leituras em ponto flutuante.
- `tests/` exercita a biblioteca em valores concretos e contra modelos
  diretos em entradas geradas.
