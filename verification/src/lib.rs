//! Monitor de cluster no terminal: a logica verificada.
pub mod texto;
pub mod coleta;
pub mod historico;
pub mod json;
pub mod cfg;
pub mod cluster;
pub mod painel;
pub mod tabela;
pub mod logo;
pub mod ui;
pub mod tempo;
pub mod swarm;
pub mod resposta;
