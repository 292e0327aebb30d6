//! Solutions to beginner problems of an online judge. Each `run` takes
//! the input and returns the expected output.
pub mod _1020_idade_em_dias;
pub mod _1035_teste_de_selecao_1;
pub mod _1037_intervalo;
