//! The record types of the clinic, each with its payload encoding.

pub mod cidade;
pub mod consulta;
pub mod diaria;
pub mod especialidade;
pub mod exame;
pub mod medico;
pub mod paciente;
