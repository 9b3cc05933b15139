//! The daily quota of consultations, kept in a table of days.

use crate::db::file_manager::{FileManager, StoreModel};
use crate::error::StoreError;
use crate::structs::diaria::{Diaria, DiariaView};
use vstd::prelude::*;

verus! {

/// The consultations that a day holds so far: none where the day has no record.
pub open spec fn consultas_do_dia(diaria: Option<DiariaView>) -> u32 {
    match diaria {
        Some(d) => d.quantidade_consultas,
        None => 0,
    }
}

/// Whether a day that holds `diaria` has room for one more consultation under
/// the daily limit.
pub fn ha_vaga(diaria: &Option<Diaria>, limite_diario: u32) -> (vaga: bool)
    ensures
        vaga == (consultas_do_dia(
            match *diaria {
                Some(d) => Some(d@),
                None => None,
            },
        ) < limite_diario),
{
    let consultas = match diaria {
        Some(d) => d.quantidade_consultas,
        None => 0,
    };
    consultas < limite_diario
}

/// The record of a day with its count changed by `incremento`, wrapping
/// around at the bounds of the count.
pub open spec fn com_incremento(d: DiariaView, incremento: i32) -> DiariaView {
    DiariaView {
        codigo_dia: d.codigo_dia,
        codigo_especialidade: d.codigo_especialidade,
        quantidade_consultas: if d.quantidade_consultas + incremento < 0 {
            (d.quantidade_consultas + incremento + 0x1_0000_0000) as u32
        } else if d.quantidade_consultas + incremento > u32::MAX {
            (d.quantidade_consultas + incremento - 0x1_0000_0000) as u32
        } else {
            (d.quantidade_consultas + incremento) as u32
        },
    }
}

/// The record that `atualizar_diaria` tries to create, if it tries: the
/// changed record of a day that has one, a first record for a day that has
/// none where the count rises, and nothing otherwise.
pub open spec fn diaria_a_criar(
    m: StoreModel,
    codigo_dia: u32,
    codigo_especialidade: u32,
    incremento: i32,
) -> Option<DiariaView> {
    match m.read::<Diaria>(codigo_dia) {
        Some(d) => Some(com_incremento(d, incremento)),
        None => {
            if incremento > 0 {
                Some(
                    DiariaView {
                        codigo_dia,
                        codigo_especialidade,
                        quantidade_consultas: incremento as u32,
                    },
                )
            } else {
                None
            }
        },
    }
}

/// Counts a consultation that was booked or cancelled on a day.
///
/// The record of the day is created under the day's code. A table holds one
/// record for a key, so for a day that has a record already this fails with
/// `AlreadyExists` and the count stays as it was.
pub fn atualizar_diaria(
    diaria_manager: &mut FileManager<Diaria>,
    codigo_dia: u32,
    codigo_especialidade: u32,
    incremento: i32,
) -> (r: Result<(), StoreError>)
    ensures
        final(diaria_manager).wf(),
        match diaria_a_criar(old(diaria_manager)@, codigo_dia, codigo_especialidade, incremento) {
            Some(d) => match old(diaria_manager)@.create::<Diaria>(d, codigo_dia) {
                Ok(m) => r.is_ok() && final(diaria_manager)@ == m,
                Err(e) => r == Err::<(), StoreError>(e) && final(diaria_manager)@ == old(
                    diaria_manager,
                )@,
            },
            None => r.is_ok() && final(diaria_manager)@ == old(diaria_manager)@,
        },
        old(diaria_manager)@.index.contains_key(codigo_dia) ==> r == Err::<(), StoreError>(
            StoreError::AlreadyExists,
        ),
{
    match diaria_manager.read_record(codigo_dia) {
        Ok(Some(diaria)) => {
            let soma: i64 = diaria.quantidade_consultas as i64 + incremento as i64;
            let quantidade_consultas = if soma < 0 {
                (soma + 0x1_0000_0000) as u32
            } else if soma > u32::MAX as i64 {
                (soma - 0x1_0000_0000) as u32
            } else {
                soma as u32
            };
            let atualizada = Diaria {
                codigo_dia: diaria.codigo_dia,
                codigo_especialidade: diaria.codigo_especialidade,
                quantidade_consultas,
            };
            diaria_manager.create_record(&atualizada, codigo_dia)
        },
        _ => {
            if incremento > 0 {
                let nova_diaria = Diaria {
                    codigo_dia,
                    codigo_especialidade,
                    quantidade_consultas: incremento as u32,
                };
                diaria_manager.create_record(&nova_diaria, codigo_dia)
            } else {
                Ok(())
            }
        },
    }
}

} // verus!
