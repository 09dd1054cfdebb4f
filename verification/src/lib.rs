pub mod texto;
pub mod tempo;
pub mod decimal;
pub mod letreiro;
pub mod secoes;
pub mod item_de_exclusao;
pub mod configuracao;
pub mod validades;
pub mod remocao_dir;
pub mod notificacoes;
pub mod remocao_diretorio;
pub mod links;
pub mod interface;
