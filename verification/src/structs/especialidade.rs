//! A medical specialty, its consultation price and its daily quota.

use crate::db::codec::{
    lemma_text_at_written, lemma_u32_at_written, put_text, put_u32, take_text, take_u32, text_at,
    text_bytes, text_fits, u32_at,
};
use crate::db::file_manager::Entity;
use crate::error::StoreError;
use vstd::bytes::*;
use vstd::prelude::*;

verus! {

/// A specialty; the key is its code.
#[derive(Debug, Default, Clone, PartialEq, Eq)]
pub struct Especialidade {
    pub codigo_especialidade: u32,
    pub descricao: String,
    /// The price of a consultation, as the bits of an IEEE 754 single-precision
    /// number.
    pub valor_consulta: u32,
    /// How many consultations a day may hold.
    pub limite_diario: u32,
}

/// The model of a [`Especialidade`]: each text as its characters.
pub struct EspecialidadeView {
    pub codigo_especialidade: u32,
    pub descricao: Seq<char>,
    pub valor_consulta: u32,
    pub limite_diario: u32,
}

impl View for Especialidade {
    type V = EspecialidadeView;

    open spec fn view(&self) -> EspecialidadeView {
        EspecialidadeView {
            codigo_especialidade: self.codigo_especialidade,
            descricao: self.descricao@,
            valor_consulta: self.valor_consulta,
            limite_diario: self.limite_diario,
        }
    }
}

impl Entity for Especialidade {
    open spec fn spec_key(v: EspecialidadeView) -> u32 {
        v.codigo_especialidade
    }

    open spec fn spec_valid(v: EspecialidadeView) -> bool {
        text_fits(v.descricao)
    }

    open spec fn spec_encode(v: EspecialidadeView) -> Seq<u8> {
        spec_u32_to_le_bytes(v.codigo_especialidade)
            + text_bytes(v.descricao)
            + spec_u32_to_le_bytes(v.valor_consulta)
            + spec_u32_to_le_bytes(v.limite_diario)
    }

    open spec fn spec_decode(bytes: Seq<u8>) -> Option<EspecialidadeView> {
        match u32_at(bytes, 0) {
            None => None,
            Some((codigo_especialidade, pos1)) => match text_at(bytes, pos1) {
                None => None,
                Some((descricao, pos2)) => match u32_at(bytes, pos2) {
                    None => None,
                    Some((valor_consulta, pos3)) => match u32_at(bytes, pos3) {
                        None => None,
                        Some((limite_diario, _)) => Some(
                            EspecialidadeView {
                                codigo_especialidade,
                                descricao,
                                valor_consulta,
                                limite_diario,
                            },
                        ),
                    },
                },
            },
        }
    }

    proof fn lemma_round_trip(v: EspecialidadeView) {
        let f1 = spec_u32_to_le_bytes(v.codigo_especialidade);
        let f2 = text_bytes(v.descricao);
        let f3 = spec_u32_to_le_bytes(v.valor_consulta);
        let f4 = spec_u32_to_le_bytes(v.limite_diario);
        let all = Self::spec_encode(v);
        let none = Seq::<u8>::empty();
        lemma_auto_spec_u32_to_from_le_bytes();
        lemma_u32_at_written(none, v.codigo_especialidade, f2 + f3 + f4);
        assert(all =~= none + f1 + (f2 + f3 + f4));
        lemma_text_at_written(f1, v.descricao, f3 + f4);
        assert(all =~= f1 + f2 + (f3 + f4));
        lemma_u32_at_written(f1 + f2, v.valor_consulta, f4);
        assert(all =~= f1 + f2 + f3 + f4);
        lemma_u32_at_written(f1 + f2 + f3, v.limite_diario, none);
        assert(all =~= f1 + f2 + f3 + f4 + none);
    }

    fn get_key(&self) -> (k: u32) {
        self.codigo_especialidade
    }

    fn to_bytes(&self) -> (r: Result<Vec<u8>, StoreError>) {
        let mut bytes = Vec::new();
        put_u32(&mut bytes, self.codigo_especialidade);
        put_text(&mut bytes, self.descricao.as_str())?;
        put_u32(&mut bytes, self.valor_consulta);
        put_u32(&mut bytes, self.limite_diario);
        assert(bytes@ =~= Self::spec_encode(self@));
        Ok(bytes)
    }

    fn from_bytes(bytes: &[u8]) -> (r: Result<Self, StoreError>) {
        let mut cursor: usize = 0;
        let codigo_especialidade = take_u32(bytes, &mut cursor)?;
        let descricao = take_text(bytes, &mut cursor)?;
        let valor_consulta = take_u32(bytes, &mut cursor)?;
        let limite_diario = take_u32(bytes, &mut cursor)?;
        Ok(Especialidade { codigo_especialidade, descricao, valor_consulta, limite_diario })
    }
}

} // verus!
