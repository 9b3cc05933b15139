//! A city: code, name and state.

use crate::db::codec::{
    lemma_text_at_written, lemma_u32_at_written, put_text, put_u32, take_text, take_u32, text_at,
    text_bytes, text_fits, u32_at,
};
use crate::db::file_manager::Entity;
use crate::error::StoreError;
use vstd::bytes::*;
use vstd::prelude::*;

verus! {

/// A city; the key is its code.
#[derive(Debug, Default, Clone, PartialEq, Eq)]
pub struct Cidade {
    pub codigo_cidade: u32,
    pub descricao: String,
    pub estado: String,
}

/// The model of a [`Cidade`]: each text as its characters.
pub struct CidadeView {
    pub codigo_cidade: u32,
    pub descricao: Seq<char>,
    pub estado: Seq<char>,
}

impl View for Cidade {
    type V = CidadeView;

    open spec fn view(&self) -> CidadeView {
        CidadeView {
            codigo_cidade: self.codigo_cidade,
            descricao: self.descricao@,
            estado: self.estado@,
        }
    }
}

impl Entity for Cidade {
    open spec fn spec_key(v: CidadeView) -> u32 {
        v.codigo_cidade
    }

    open spec fn spec_valid(v: CidadeView) -> bool {
        text_fits(v.descricao) && text_fits(v.estado)
    }

    open spec fn spec_encode(v: CidadeView) -> Seq<u8> {
        spec_u32_to_le_bytes(v.codigo_cidade) + text_bytes(v.descricao) + text_bytes(v.estado)
    }

    open spec fn spec_decode(bytes: Seq<u8>) -> Option<CidadeView> {
        match u32_at(bytes, 0) {
            Some((codigo_cidade, pos1)) => match text_at(bytes, pos1) {
                Some((descricao, pos2)) => match text_at(bytes, pos2) {
                    Some((estado, _)) => Some(CidadeView { codigo_cidade, descricao, estado }),
                    None => None,
                },
                None => None,
            },
            None => None,
        }
    }

    proof fn lemma_round_trip(v: CidadeView) {
        let f1 = spec_u32_to_le_bytes(v.codigo_cidade);
        let f2 = text_bytes(v.descricao);
        let f3 = text_bytes(v.estado);
        let all = Self::spec_encode(v);
        let none = Seq::<u8>::empty();
        lemma_auto_spec_u32_to_from_le_bytes();
        lemma_u32_at_written(none, v.codigo_cidade, f2 + f3);
        assert(all =~= none + f1 + (f2 + f3));
        lemma_text_at_written(f1, v.descricao, f3);
        assert(all =~= f1 + f2 + f3);
        lemma_text_at_written(f1 + f2, v.estado, none);
        assert(all =~= f1 + f2 + f3 + none);
    }

    fn get_key(&self) -> (k: u32) {
        self.codigo_cidade
    }

    fn to_bytes(&self) -> (r: Result<Vec<u8>, StoreError>) {
        let mut bytes = Vec::new();
        put_u32(&mut bytes, self.codigo_cidade);
        put_text(&mut bytes, self.descricao.as_str())?;
        put_text(&mut bytes, self.estado.as_str())?;
        assert(bytes@ =~= Self::spec_encode(self@));
        Ok(bytes)
    }

    fn from_bytes(bytes: &[u8]) -> (r: Result<Self, StoreError>) {
        let mut cursor: usize = 0;
        let codigo_cidade = take_u32(bytes, &mut cursor)?;
        let descricao = take_text(bytes, &mut cursor)?;
        let estado = take_text(bytes, &mut cursor)?;
        Ok(Cidade { codigo_cidade, descricao, estado })
    }
}

} // verus!
