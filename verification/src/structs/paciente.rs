//! A patient.

use crate::db::codec::{
    lemma_text_at_written, lemma_u32_at_written, put_text, put_u32, take_text, take_u32, text_at,
    text_bytes, text_fits, u32_at,
};
use crate::db::file_manager::Entity;
use crate::error::StoreError;
use vstd::bytes::*;
use vstd::prelude::*;

verus! {

/// A patient; the key is their code.
#[derive(Debug, Default, Clone, PartialEq, Eq)]
pub struct Paciente {
    pub codigo_paciente: u32,
    pub nome: String,
    pub data_nascimento: String,
    pub endereco: String,
    pub telefone: String,
    pub codigo_cidade: u32,
    /// The weight in kilograms, as the bits of an IEEE 754 single-precision
    /// number.
    pub peso: u32,
    /// The height in metres, as the bits of an IEEE 754 single-precision number.
    pub altura: u32,
}

/// The model of a [`Paciente`]: each text as its characters.
pub struct PacienteView {
    pub codigo_paciente: u32,
    pub nome: Seq<char>,
    pub data_nascimento: Seq<char>,
    pub endereco: Seq<char>,
    pub telefone: Seq<char>,
    pub codigo_cidade: u32,
    pub peso: u32,
    pub altura: u32,
}

impl View for Paciente {
    type V = PacienteView;

    open spec fn view(&self) -> PacienteView {
        PacienteView {
            codigo_paciente: self.codigo_paciente,
            nome: self.nome@,
            data_nascimento: self.data_nascimento@,
            endereco: self.endereco@,
            telefone: self.telefone@,
            codigo_cidade: self.codigo_cidade,
            peso: self.peso,
            altura: self.altura,
        }
    }
}

impl Entity for Paciente {
    open spec fn spec_key(v: PacienteView) -> u32 {
        v.codigo_paciente
    }

    open spec fn spec_valid(v: PacienteView) -> bool {
        &&& text_fits(v.nome)
        &&& text_fits(v.data_nascimento)
        &&& text_fits(v.endereco)
        &&& text_fits(v.telefone)
    }

    open spec fn spec_encode(v: PacienteView) -> Seq<u8> {
        spec_u32_to_le_bytes(v.codigo_paciente)
            + text_bytes(v.nome)
            + text_bytes(v.data_nascimento)
            + text_bytes(v.endereco)
            + text_bytes(v.telefone)
            + spec_u32_to_le_bytes(v.codigo_cidade)
            + spec_u32_to_le_bytes(v.peso)
            + spec_u32_to_le_bytes(v.altura)
    }

    open spec fn spec_decode(bytes: Seq<u8>) -> Option<PacienteView> {
        match u32_at(bytes, 0) {
            None => None,
            Some((codigo_paciente, pos1)) => match text_at(bytes, pos1) {
                None => None,
                Some((nome, pos2)) => match text_at(bytes, pos2) {
                    None => None,
                    Some((data_nascimento, pos3)) => match text_at(bytes, pos3) {
                        None => None,
                        Some((endereco, pos4)) => match text_at(bytes, pos4) {
                            None => None,
                            Some((telefone, pos5)) => match u32_at(bytes, pos5) {
                                None => None,
                                Some((codigo_cidade, pos6)) => match u32_at(bytes, pos6) {
                                    None => None,
                                    Some((peso, pos7)) => match u32_at(bytes, pos7) {
                                        None => None,
                                        Some((altura, _)) => Some(
                                            PacienteView {
                                                codigo_paciente,
                                                nome,
                                                data_nascimento,
                                                endereco,
                                                telefone,
                                                codigo_cidade,
                                                peso,
                                                altura,
                                            },
                                        ),
                                    },
                                },
                            },
                        },
                    },
                },
            },
        }
    }

    proof fn lemma_round_trip(v: PacienteView) {
        let f1 = spec_u32_to_le_bytes(v.codigo_paciente);
        let f2 = text_bytes(v.nome);
        let f3 = text_bytes(v.data_nascimento);
        let f4 = text_bytes(v.endereco);
        let f5 = text_bytes(v.telefone);
        let f6 = spec_u32_to_le_bytes(v.codigo_cidade);
        let f7 = spec_u32_to_le_bytes(v.peso);
        let f8 = spec_u32_to_le_bytes(v.altura);
        let all = Self::spec_encode(v);
        let none = Seq::<u8>::empty();
        lemma_auto_spec_u32_to_from_le_bytes();
        lemma_u32_at_written(none, v.codigo_paciente, f2 + f3 + f4 + f5 + f6 + f7 + f8);
        assert(all =~= none + f1 + (f2 + f3 + f4 + f5 + f6 + f7 + f8));
        lemma_text_at_written(f1, v.nome, f3 + f4 + f5 + f6 + f7 + f8);
        assert(all =~= f1 + f2 + (f3 + f4 + f5 + f6 + f7 + f8));
        lemma_text_at_written(f1 + f2, v.data_nascimento, f4 + f5 + f6 + f7 + f8);
        assert(all =~= f1 + f2 + f3 + (f4 + f5 + f6 + f7 + f8));
        lemma_text_at_written(f1 + f2 + f3, v.endereco, f5 + f6 + f7 + f8);
        assert(all =~= f1 + f2 + f3 + f4 + (f5 + f6 + f7 + f8));
        lemma_text_at_written(f1 + f2 + f3 + f4, v.telefone, f6 + f7 + f8);
        assert(all =~= f1 + f2 + f3 + f4 + f5 + (f6 + f7 + f8));
        lemma_u32_at_written(f1 + f2 + f3 + f4 + f5, v.codigo_cidade, f7 + f8);
        assert(all =~= f1 + f2 + f3 + f4 + f5 + f6 + (f7 + f8));
        lemma_u32_at_written(f1 + f2 + f3 + f4 + f5 + f6, v.peso, f8);
        assert(all =~= f1 + f2 + f3 + f4 + f5 + f6 + f7 + f8);
        lemma_u32_at_written(f1 + f2 + f3 + f4 + f5 + f6 + f7, v.altura, none);
        assert(all =~= f1 + f2 + f3 + f4 + f5 + f6 + f7 + f8 + none);
    }

    fn get_key(&self) -> (k: u32) {
        self.codigo_paciente
    }

    fn to_bytes(&self) -> (r: Result<Vec<u8>, StoreError>) {
        let mut bytes = Vec::new();
        put_u32(&mut bytes, self.codigo_paciente);
        put_text(&mut bytes, self.nome.as_str())?;
        put_text(&mut bytes, self.data_nascimento.as_str())?;
        put_text(&mut bytes, self.endereco.as_str())?;
        put_text(&mut bytes, self.telefone.as_str())?;
        put_u32(&mut bytes, self.codigo_cidade);
        put_u32(&mut bytes, self.peso);
        put_u32(&mut bytes, self.altura);
        assert(bytes@ =~= Self::spec_encode(self@));
        Ok(bytes)
    }

    fn from_bytes(bytes: &[u8]) -> (r: Result<Self, StoreError>) {
        let mut cursor: usize = 0;
        let codigo_paciente = take_u32(bytes, &mut cursor)?;
        let nome = take_text(bytes, &mut cursor)?;
        let data_nascimento = take_text(bytes, &mut cursor)?;
        let endereco = take_text(bytes, &mut cursor)?;
        let telefone = take_text(bytes, &mut cursor)?;
        let codigo_cidade = take_u32(bytes, &mut cursor)?;
        let peso = take_u32(bytes, &mut cursor)?;
        let altura = take_u32(bytes, &mut cursor)?;
        Ok(Paciente {
            codigo_paciente,
            nome,
            data_nascimento,
            endereco,
            telefone,
            codigo_cidade,
            peso,
            altura,
        })
    }
}

} // verus!
