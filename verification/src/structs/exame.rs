//! An exam and its price.

use crate::db::codec::{
    lemma_text_at_written, lemma_u32_at_written, put_text, put_u32, take_text, take_u32, text_at,
    text_bytes, text_fits, u32_at,
};
use crate::db::file_manager::Entity;
use crate::error::StoreError;
use vstd::bytes::*;
use vstd::prelude::*;

verus! {

/// An exam; the key is its code.
#[derive(Debug, Default, Clone, PartialEq, Eq)]
pub struct Exame {
    pub codigo_exame: u32,
    pub descricao: String,
    pub codigo_especialidade: u32,
    /// The price, as the bits of an IEEE 754 single-precision number.
    pub valor_exame: u32,
}

/// The model of a [`Exame`]: each text as its characters.
pub struct ExameView {
    pub codigo_exame: u32,
    pub descricao: Seq<char>,
    pub codigo_especialidade: u32,
    pub valor_exame: u32,
}

impl View for Exame {
    type V = ExameView;

    open spec fn view(&self) -> ExameView {
        ExameView {
            codigo_exame: self.codigo_exame,
            descricao: self.descricao@,
            codigo_especialidade: self.codigo_especialidade,
            valor_exame: self.valor_exame,
        }
    }
}

impl Entity for Exame {
    open spec fn spec_key(v: ExameView) -> u32 {
        v.codigo_exame
    }

    open spec fn spec_valid(v: ExameView) -> bool {
        text_fits(v.descricao)
    }

    open spec fn spec_encode(v: ExameView) -> Seq<u8> {
        spec_u32_to_le_bytes(v.codigo_exame)
            + text_bytes(v.descricao)
            + spec_u32_to_le_bytes(v.codigo_especialidade)
            + spec_u32_to_le_bytes(v.valor_exame)
    }

    open spec fn spec_decode(bytes: Seq<u8>) -> Option<ExameView> {
        match u32_at(bytes, 0) {
            None => None,
            Some((codigo_exame, pos1)) => match text_at(bytes, pos1) {
                None => None,
                Some((descricao, pos2)) => match u32_at(bytes, pos2) {
                    None => None,
                    Some((codigo_especialidade, pos3)) => match u32_at(bytes, pos3) {
                        None => None,
                        Some((valor_exame, _)) => Some(
                            ExameView {
                                codigo_exame,
                                descricao,
                                codigo_especialidade,
                                valor_exame,
                            },
                        ),
                    },
                },
            },
        }
    }

    proof fn lemma_round_trip(v: ExameView) {
        let f1 = spec_u32_to_le_bytes(v.codigo_exame);
        let f2 = text_bytes(v.descricao);
        let f3 = spec_u32_to_le_bytes(v.codigo_especialidade);
        let f4 = spec_u32_to_le_bytes(v.valor_exame);
        let all = Self::spec_encode(v);
        let none = Seq::<u8>::empty();
        lemma_auto_spec_u32_to_from_le_bytes();
        lemma_u32_at_written(none, v.codigo_exame, f2 + f3 + f4);
        assert(all =~= none + f1 + (f2 + f3 + f4));
        lemma_text_at_written(f1, v.descricao, f3 + f4);
        assert(all =~= f1 + f2 + (f3 + f4));
        lemma_u32_at_written(f1 + f2, v.codigo_especialidade, f4);
        assert(all =~= f1 + f2 + f3 + f4);
        lemma_u32_at_written(f1 + f2 + f3, v.valor_exame, none);
        assert(all =~= f1 + f2 + f3 + f4 + none);
    }

    fn get_key(&self) -> (k: u32) {
        self.codigo_exame
    }

    fn to_bytes(&self) -> (r: Result<Vec<u8>, StoreError>) {
        let mut bytes = Vec::new();
        put_u32(&mut bytes, self.codigo_exame);
        put_text(&mut bytes, self.descricao.as_str())?;
        put_u32(&mut bytes, self.codigo_especialidade);
        put_u32(&mut bytes, self.valor_exame);
        assert(bytes@ =~= Self::spec_encode(self@));
        Ok(bytes)
    }

    fn from_bytes(bytes: &[u8]) -> (r: Result<Self, StoreError>) {
        let mut cursor: usize = 0;
        let codigo_exame = take_u32(bytes, &mut cursor)?;
        let descricao = take_text(bytes, &mut cursor)?;
        let codigo_especialidade = take_u32(bytes, &mut cursor)?;
        let valor_exame = take_u32(bytes, &mut cursor)?;
        Ok(Exame { codigo_exame, descricao, codigo_especialidade, valor_exame })
    }
}

} // verus!
