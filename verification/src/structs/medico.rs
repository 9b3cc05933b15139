//! A physician.

use crate::db::codec::{
    lemma_text_at_written, lemma_u32_at_written, put_text, put_u32, take_text, take_u32, text_at,
    text_bytes, text_fits, u32_at,
};
use crate::db::file_manager::Entity;
use crate::error::StoreError;
use vstd::bytes::*;
use vstd::prelude::*;

verus! {

/// A physician; the key is their code.
#[derive(Debug, Default, Clone, PartialEq, Eq)]
pub struct Medico {
    pub codigo_medico: u32,
    pub nome: String,
    pub endereco: String,
    pub telefone: String,
    pub codigo_cidade: u32,
    pub codigo_especialidade: u32,
}

/// The model of a [`Medico`]: each text as its characters.
pub struct MedicoView {
    pub codigo_medico: u32,
    pub nome: Seq<char>,
    pub endereco: Seq<char>,
    pub telefone: Seq<char>,
    pub codigo_cidade: u32,
    pub codigo_especialidade: u32,
}

impl View for Medico {
    type V = MedicoView;

    open spec fn view(&self) -> MedicoView {
        MedicoView {
            codigo_medico: self.codigo_medico,
            nome: self.nome@,
            endereco: self.endereco@,
            telefone: self.telefone@,
            codigo_cidade: self.codigo_cidade,
            codigo_especialidade: self.codigo_especialidade,
        }
    }
}

impl Entity for Medico {
    open spec fn spec_key(v: MedicoView) -> u32 {
        v.codigo_medico
    }

    open spec fn spec_valid(v: MedicoView) -> bool {
        &&& text_fits(v.nome)
        &&& text_fits(v.endereco)
        &&& text_fits(v.telefone)
    }

    open spec fn spec_encode(v: MedicoView) -> Seq<u8> {
        spec_u32_to_le_bytes(v.codigo_medico)
            + text_bytes(v.nome)
            + text_bytes(v.endereco)
            + text_bytes(v.telefone)
            + spec_u32_to_le_bytes(v.codigo_cidade)
            + spec_u32_to_le_bytes(v.codigo_especialidade)
    }

    open spec fn spec_decode(bytes: Seq<u8>) -> Option<MedicoView> {
        match u32_at(bytes, 0) {
            None => None,
            Some((codigo_medico, pos1)) => match text_at(bytes, pos1) {
                None => None,
                Some((nome, pos2)) => match text_at(bytes, pos2) {
                    None => None,
                    Some((endereco, pos3)) => match text_at(bytes, pos3) {
                        None => None,
                        Some((telefone, pos4)) => match u32_at(bytes, pos4) {
                            None => None,
                            Some((codigo_cidade, pos5)) => match u32_at(bytes, pos5) {
                                None => None,
                                Some((codigo_especialidade, _)) => Some(
                                    MedicoView {
                                        codigo_medico,
                                        nome,
                                        endereco,
                                        telefone,
                                        codigo_cidade,
                                        codigo_especialidade,
                                    },
                                ),
                            },
                        },
                    },
                },
            },
        }
    }

    proof fn lemma_round_trip(v: MedicoView) {
        let f1 = spec_u32_to_le_bytes(v.codigo_medico);
        let f2 = text_bytes(v.nome);
        let f3 = text_bytes(v.endereco);
        let f4 = text_bytes(v.telefone);
        let f5 = spec_u32_to_le_bytes(v.codigo_cidade);
        let f6 = spec_u32_to_le_bytes(v.codigo_especialidade);
        let all = Self::spec_encode(v);
        let none = Seq::<u8>::empty();
        lemma_auto_spec_u32_to_from_le_bytes();
        lemma_u32_at_written(none, v.codigo_medico, f2 + f3 + f4 + f5 + f6);
        assert(all =~= none + f1 + (f2 + f3 + f4 + f5 + f6));
        lemma_text_at_written(f1, v.nome, f3 + f4 + f5 + f6);
        assert(all =~= f1 + f2 + (f3 + f4 + f5 + f6));
        lemma_text_at_written(f1 + f2, v.endereco, f4 + f5 + f6);
        assert(all =~= f1 + f2 + f3 + (f4 + f5 + f6));
        lemma_text_at_written(f1 + f2 + f3, v.telefone, f5 + f6);
        assert(all =~= f1 + f2 + f3 + f4 + (f5 + f6));
        lemma_u32_at_written(f1 + f2 + f3 + f4, v.codigo_cidade, f6);
        assert(all =~= f1 + f2 + f3 + f4 + f5 + f6);
        lemma_u32_at_written(f1 + f2 + f3 + f4 + f5, v.codigo_especialidade, none);
        assert(all =~= f1 + f2 + f3 + f4 + f5 + f6 + none);
    }

    fn get_key(&self) -> (k: u32) {
        self.codigo_medico
    }

    fn to_bytes(&self) -> (r: Result<Vec<u8>, StoreError>) {
        let mut bytes = Vec::new();
        put_u32(&mut bytes, self.codigo_medico);
        put_text(&mut bytes, self.nome.as_str())?;
        put_text(&mut bytes, self.endereco.as_str())?;
        put_text(&mut bytes, self.telefone.as_str())?;
        put_u32(&mut bytes, self.codigo_cidade);
        put_u32(&mut bytes, self.codigo_especialidade);
        assert(bytes@ =~= Self::spec_encode(self@));
        Ok(bytes)
    }

    fn from_bytes(bytes: &[u8]) -> (r: Result<Self, StoreError>) {
        let mut cursor: usize = 0;
        let codigo_medico = take_u32(bytes, &mut cursor)?;
        let nome = take_text(bytes, &mut cursor)?;
        let endereco = take_text(bytes, &mut cursor)?;
        let telefone = take_text(bytes, &mut cursor)?;
        let codigo_cidade = take_u32(bytes, &mut cursor)?;
        let codigo_especialidade = take_u32(bytes, &mut cursor)?;
        Ok(Medico { codigo_medico, nome, endereco, telefone, codigo_cidade, codigo_especialidade })
    }
}

} // verus!
