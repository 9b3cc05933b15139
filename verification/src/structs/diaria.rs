//! The number of consultations booked on one day.

use crate::db::codec::{lemma_u32_at_written, put_u32, take_u32, u32_at};
use crate::db::file_manager::Entity;
use crate::error::StoreError;
use vstd::bytes::*;
use vstd::prelude::*;

verus! {

/// The consultations of one day; the key is the day, written `AAAAMMDD`.
#[derive(Debug, Default, Clone, PartialEq, Eq)]
pub struct Diaria {
    pub codigo_dia: u32,
    pub codigo_especialidade: u32,
    pub quantidade_consultas: u32,
}

/// The model of a [`Diaria`].
pub struct DiariaView {
    pub codigo_dia: u32,
    pub codigo_especialidade: u32,
    pub quantidade_consultas: u32,
}

impl View for Diaria {
    type V = DiariaView;

    open spec fn view(&self) -> DiariaView {
        DiariaView {
            codigo_dia: self.codigo_dia,
            codigo_especialidade: self.codigo_especialidade,
            quantidade_consultas: self.quantidade_consultas,
        }
    }
}

impl Entity for Diaria {
    open spec fn spec_key(v: DiariaView) -> u32 {
        v.codigo_dia
    }

    open spec fn spec_valid(v: DiariaView) -> bool {
        true
    }

    open spec fn spec_encode(v: DiariaView) -> Seq<u8> {
        spec_u32_to_le_bytes(v.codigo_dia) + spec_u32_to_le_bytes(v.codigo_especialidade)
            + spec_u32_to_le_bytes(v.quantidade_consultas)
    }

    open spec fn spec_decode(bytes: Seq<u8>) -> Option<DiariaView> {
        match u32_at(bytes, 0) {
            Some((codigo_dia, pos1)) => match u32_at(bytes, pos1) {
                Some((codigo_especialidade, pos2)) => match u32_at(bytes, pos2) {
                    Some((quantidade_consultas, _)) => Some(
                        DiariaView { codigo_dia, codigo_especialidade, quantidade_consultas },
                    ),
                    None => None,
                },
                None => None,
            },
            None => None,
        }
    }

    proof fn lemma_round_trip(v: DiariaView) {
        let f1 = spec_u32_to_le_bytes(v.codigo_dia);
        let f2 = spec_u32_to_le_bytes(v.codigo_especialidade);
        let f3 = spec_u32_to_le_bytes(v.quantidade_consultas);
        let all = Self::spec_encode(v);
        let none = Seq::<u8>::empty();
        lemma_auto_spec_u32_to_from_le_bytes();
        lemma_u32_at_written(none, v.codigo_dia, f2 + f3);
        assert(all =~= none + f1 + (f2 + f3));
        lemma_u32_at_written(f1, v.codigo_especialidade, f3);
        assert(all =~= f1 + f2 + f3);
        lemma_u32_at_written(f1 + f2, v.quantidade_consultas, none);
        assert(all =~= f1 + f2 + f3 + none);
    }

    fn get_key(&self) -> (k: u32) {
        self.codigo_dia
    }

    fn to_bytes(&self) -> (r: Result<Vec<u8>, StoreError>) {
        let mut bytes = Vec::new();
        put_u32(&mut bytes, self.codigo_dia);
        put_u32(&mut bytes, self.codigo_especialidade);
        put_u32(&mut bytes, self.quantidade_consultas);
        assert(bytes@ =~= Self::spec_encode(self@));
        Ok(bytes)
    }

    fn from_bytes(bytes: &[u8]) -> (r: Result<Self, StoreError>) {
        let mut cursor: usize = 0;
        let codigo_dia = take_u32(bytes, &mut cursor)?;
        let codigo_especialidade = take_u32(bytes, &mut cursor)?;
        let quantidade_consultas = take_u32(bytes, &mut cursor)?;
        Ok(Diaria { codigo_dia, codigo_especialidade, quantidade_consultas })
    }
}

} // verus!
