//! A consultation: who sees whom, for which exam, and when.

use crate::db::codec::{
    lemma_text_at_written, lemma_u32_at_written, put_text, put_u32, take_text, take_u32, text_at,
    text_bytes, text_fits, u32_at,
};
use crate::db::file_manager::Entity;
use crate::error::StoreError;
use vstd::bytes::*;
use vstd::prelude::*;

verus! {

/// A consultation; the key is its code.
#[derive(Debug, Default, Clone, PartialEq, Eq)]
pub struct Consulta {
    pub codigo_consulta: u32,
    pub codigo_paciente: u32,
    pub codigo_medico: u32,
    pub codigo_exame: u32,
    /// The day, written `AAAAMMDD`.
    pub data: String,
    /// The time of day, written `HH:MM`.
    pub hora: String,
}

/// The model of a [`Consulta`]: each text as its characters.
pub struct ConsultaView {
    pub codigo_consulta: u32,
    pub codigo_paciente: u32,
    pub codigo_medico: u32,
    pub codigo_exame: u32,
    pub data: Seq<char>,
    pub hora: Seq<char>,
}

impl View for Consulta {
    type V = ConsultaView;

    open spec fn view(&self) -> ConsultaView {
        ConsultaView {
            codigo_consulta: self.codigo_consulta,
            codigo_paciente: self.codigo_paciente,
            codigo_medico: self.codigo_medico,
            codigo_exame: self.codigo_exame,
            data: self.data@,
            hora: self.hora@,
        }
    }
}

impl Entity for Consulta {
    open spec fn spec_key(v: ConsultaView) -> u32 {
        v.codigo_consulta
    }

    open spec fn spec_valid(v: ConsultaView) -> bool {
        text_fits(v.data) && text_fits(v.hora)
    }

    open spec fn spec_encode(v: ConsultaView) -> Seq<u8> {
        spec_u32_to_le_bytes(v.codigo_consulta)
            + spec_u32_to_le_bytes(v.codigo_paciente)
            + spec_u32_to_le_bytes(v.codigo_medico)
            + spec_u32_to_le_bytes(v.codigo_exame)
            + text_bytes(v.data)
            + text_bytes(v.hora)
    }

    open spec fn spec_decode(bytes: Seq<u8>) -> Option<ConsultaView> {
        match u32_at(bytes, 0) {
            None => None,
            Some((codigo_consulta, pos1)) => match u32_at(bytes, pos1) {
                None => None,
                Some((codigo_paciente, pos2)) => match u32_at(bytes, pos2) {
                    None => None,
                    Some((codigo_medico, pos3)) => match u32_at(bytes, pos3) {
                        None => None,
                        Some((codigo_exame, pos4)) => match text_at(bytes, pos4) {
                            None => None,
                            Some((data, pos5)) => match text_at(bytes, pos5) {
                                None => None,
                                Some((hora, _)) => Some(
                                    ConsultaView {
                                        codigo_consulta,
                                        codigo_paciente,
                                        codigo_medico,
                                        codigo_exame,
                                        data,
                                        hora,
                                    },
                                ),
                            },
                        },
                    },
                },
            },
        }
    }

    proof fn lemma_round_trip(v: ConsultaView) {
        let f1 = spec_u32_to_le_bytes(v.codigo_consulta);
        let f2 = spec_u32_to_le_bytes(v.codigo_paciente);
        let f3 = spec_u32_to_le_bytes(v.codigo_medico);
        let f4 = spec_u32_to_le_bytes(v.codigo_exame);
        let f5 = text_bytes(v.data);
        let f6 = text_bytes(v.hora);
        let all = Self::spec_encode(v);
        let none = Seq::<u8>::empty();
        lemma_auto_spec_u32_to_from_le_bytes();
        lemma_u32_at_written(none, v.codigo_consulta, f2 + f3 + f4 + f5 + f6);
        assert(all =~= none + f1 + (f2 + f3 + f4 + f5 + f6));
        lemma_u32_at_written(f1, v.codigo_paciente, f3 + f4 + f5 + f6);
        assert(all =~= f1 + f2 + (f3 + f4 + f5 + f6));
        lemma_u32_at_written(f1 + f2, v.codigo_medico, f4 + f5 + f6);
        assert(all =~= f1 + f2 + f3 + (f4 + f5 + f6));
        lemma_u32_at_written(f1 + f2 + f3, v.codigo_exame, f5 + f6);
        assert(all =~= f1 + f2 + f3 + f4 + (f5 + f6));
        lemma_text_at_written(f1 + f2 + f3 + f4, v.data, f6);
        assert(all =~= f1 + f2 + f3 + f4 + f5 + f6);
        lemma_text_at_written(f1 + f2 + f3 + f4 + f5, v.hora, none);
        assert(all =~= f1 + f2 + f3 + f4 + f5 + f6 + none);
    }

    fn get_key(&self) -> (k: u32) {
        self.codigo_consulta
    }

    fn to_bytes(&self) -> (r: Result<Vec<u8>, StoreError>) {
        let mut bytes = Vec::new();
        put_u32(&mut bytes, self.codigo_consulta);
        put_u32(&mut bytes, self.codigo_paciente);
        put_u32(&mut bytes, self.codigo_medico);
        put_u32(&mut bytes, self.codigo_exame);
        put_text(&mut bytes, self.data.as_str())?;
        put_text(&mut bytes, self.hora.as_str())?;
        assert(bytes@ =~= Self::spec_encode(self@));
        Ok(bytes)
    }

    fn from_bytes(bytes: &[u8]) -> (r: Result<Self, StoreError>) {
        let mut cursor: usize = 0;
        let codigo_consulta = take_u32(bytes, &mut cursor)?;
        let codigo_paciente = take_u32(bytes, &mut cursor)?;
        let codigo_medico = take_u32(bytes, &mut cursor)?;
        let codigo_exame = take_u32(bytes, &mut cursor)?;
        let data = take_text(bytes, &mut cursor)?;
        let hora = take_text(bytes, &mut cursor)?;
        Ok(Consulta { codigo_consulta, codigo_paciente, codigo_medico, codigo_exame, data, hora })
    }
}

} // verus!
