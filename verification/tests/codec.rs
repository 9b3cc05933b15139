use clinic_store::db::codec::{length_prefix, put_bytes, put_text, put_u32, take_text, take_u32};
use clinic_store::db::file_manager::Entity;
use clinic_store::error::StoreError;
use clinic_store::structs::cidade::Cidade;
use clinic_store::structs::consulta::Consulta;
use clinic_store::structs::diaria::Diaria;
use clinic_store::structs::especialidade::Especialidade;
use clinic_store::structs::exame::Exame;
use clinic_store::structs::medico::Medico;
use clinic_store::structs::paciente::Paciente;

fn sample_paciente() -> Paciente {
    Paciente {
        codigo_paciente: 42,
        nome: "Joana Conceição".to_string(),
        data_nascimento: "19880229".to_string(),
        endereco: "Rua das Flores, 10".to_string(),
        telefone: "+55 11 5555-0100".to_string(),
        codigo_cidade: 3,
        peso: 61.5f32.to_bits(),
        altura: 1.68f32.to_bits(),
    }
}

#[test]
fn length_prefix_keeps_a_length_that_fits() {
    assert_eq!(length_prefix(0), Ok(0));
    assert_eq!(length_prefix(300), Ok(300));
    assert_eq!(length_prefix(u32::MAX as usize), Ok(u32::MAX));
}

#[test]
fn length_prefix_refuses_a_length_over_four_bytes() {
    if usize::BITS > 32 {
        let too_long = (u32::MAX as u64 + 1) as usize;
        assert_eq!(length_prefix(too_long), Err(StoreError::TooLarge));
        assert_eq!(length_prefix(usize::MAX), Err(StoreError::TooLarge));
    }
}

#[test]
fn put_u32_appends_four_little_endian_bytes() {
    let mut buf = vec![0xAAu8];
    put_u32(&mut buf, 0x0102_0304);
    assert_eq!(buf, vec![0xAA, 0x04, 0x03, 0x02, 0x01]);
    put_u32(&mut buf, 0);
    assert_eq!(buf, vec![0xAA, 0x04, 0x03, 0x02, 0x01, 0, 0, 0, 0]);
}

#[test]
fn put_bytes_appends_the_slice() {
    let mut buf = vec![1u8, 2];
    put_bytes(&mut buf, &[3, 4, 5]);
    assert_eq!(buf, vec![1, 2, 3, 4, 5]);
    put_bytes(&mut buf, &[]);
    assert_eq!(buf, vec![1, 2, 3, 4, 5]);
}

#[test]
fn put_text_writes_the_byte_length_then_the_utf8_bytes() {
    let mut buf = Vec::new();
    assert_eq!(put_text(&mut buf, "Olá"), Ok(()));
    assert_eq!(buf, vec![4, 0, 0, 0, b'O', b'l', 0xC3, 0xA1]);
    assert_eq!(put_text(&mut buf, ""), Ok(()));
    assert_eq!(buf, vec![4, 0, 0, 0, b'O', b'l', 0xC3, 0xA1, 0, 0, 0, 0]);
}

#[test]
fn take_u32_reads_at_the_cursor_and_advances() {
    let bytes = [9u8, 0x78, 0x56, 0x34, 0x12, 7];
    let mut cursor = 1usize;
    assert_eq!(take_u32(&bytes, &mut cursor), Ok(0x1234_5678));
    assert_eq!(cursor, 5);
}

#[test]
fn take_u32_fails_on_fewer_than_four_bytes() {
    let bytes = [1u8, 2, 3, 4, 5];
    let mut cursor = 2usize;
    assert_eq!(take_u32(&bytes, &mut cursor), Err(StoreError::Decode));
    assert_eq!(cursor, 2);
    let mut beyond = 9usize;
    assert_eq!(take_u32(&bytes, &mut beyond), Err(StoreError::Decode));
    assert_eq!(beyond, 9);
    let mut at_end = 5usize;
    assert_eq!(take_u32(&bytes, &mut at_end), Err(StoreError::Decode));
}

#[test]
fn take_text_reads_the_characters() {
    let bytes = [0xFFu8, 5, 0, 0, 0, b'S', 0xC3, 0xA3, b'o', b'!', 1];
    let mut cursor = 1usize;
    assert_eq!(take_text(&bytes, &mut cursor), Ok("São!".to_string()));
    assert_eq!(cursor, 10);
}

#[test]
fn take_text_reads_an_empty_text() {
    let bytes = [0u8, 0, 0, 0];
    let mut cursor = 0usize;
    assert_eq!(take_text(&bytes, &mut cursor), Ok(String::new()));
    assert_eq!(cursor, 4);
}

#[test]
fn take_text_fails_when_the_prefix_claims_too_much() {
    let bytes = [5u8, 0, 0, 0, b'a', b'b'];
    let mut cursor = 0usize;
    assert_eq!(take_text(&bytes, &mut cursor), Err(StoreError::Decode));
    assert_eq!(cursor, 0);
    let huge = [0xFFu8, 0xFF, 0xFF, 0xFF, b'a'];
    assert_eq!(take_text(&huge, &mut cursor), Err(StoreError::Decode));
}

#[test]
fn take_text_fails_on_a_short_prefix() {
    let bytes = [1u8, 0, 0];
    let mut cursor = 0usize;
    assert_eq!(take_text(&bytes, &mut cursor), Err(StoreError::Decode));
    assert_eq!(cursor, 0);
}

#[test]
fn take_text_fails_on_invalid_utf8() {
    let bytes = [2u8, 0, 0, 0, 0xC3, 0x28];
    let mut cursor = 0usize;
    assert_eq!(take_text(&bytes, &mut cursor), Err(StoreError::Decode));
    assert_eq!(cursor, 0);
    let lone = [1u8, 0, 0, 0, 0xFF];
    assert_eq!(take_text(&lone, &mut cursor), Err(StoreError::Decode));
    let surrogate = [3u8, 0, 0, 0, 0xED, 0xA0, 0x80];
    assert_eq!(take_text(&surrogate, &mut cursor), Err(StoreError::Decode));
}

#[test]
fn diaria_payload_is_three_little_endian_integers() {
    let d = Diaria { codigo_dia: 20240131, codigo_especialidade: 7, quantidade_consultas: 258 };
    assert_eq!(d.get_key(), 20240131);
    let bytes = d.to_bytes().unwrap();
    assert_eq!(bytes, vec![0x03, 0xD7, 0x34, 0x01, 7, 0, 0, 0, 2, 1, 0, 0]);
    assert_eq!(Diaria::from_bytes(&bytes), Ok(d));
}

#[test]
fn cidade_payload_is_code_then_two_texts() {
    let c = Cidade { codigo_cidade: 5, descricao: "Assis".to_string(), estado: "SP".to_string() };
    assert_eq!(c.get_key(), 5);
    let bytes = c.to_bytes().unwrap();
    assert_eq!(
        bytes,
        vec![5, 0, 0, 0, 5, 0, 0, 0, b'A', b's', b's', b'i', b's', 2, 0, 0, 0, b'S', b'P']
    );
    assert_eq!(Cidade::from_bytes(&bytes), Ok(c));
}

#[test]
fn exame_payload_keeps_the_bits_of_the_price() {
    let e = Exame {
        codigo_exame: 1,
        descricao: "RX".to_string(),
        codigo_especialidade: 2,
        valor_exame: 1.0f32.to_bits(),
    };
    let bytes = e.to_bytes().unwrap();
    assert_eq!(
        bytes,
        vec![1, 0, 0, 0, 2, 0, 0, 0, b'R', b'X', 2, 0, 0, 0, 0x00, 0x00, 0x80, 0x3F]
    );
    let back = Exame::from_bytes(&bytes).unwrap();
    assert_eq!(f32::from_bits(back.valor_exame), 1.0f32);
    assert_eq!(back, e);
}

#[test]
fn round_trip_of_every_record_type() {
    let cidade =
        Cidade { codigo_cidade: 9, descricao: "Maringá".to_string(), estado: "PR".to_string() };
    assert_eq!(Cidade::from_bytes(&cidade.to_bytes().unwrap()), Ok(cidade));
    let consulta = Consulta {
        codigo_consulta: 77,
        codigo_paciente: 42,
        codigo_medico: 8,
        codigo_exame: 3,
        data: "20240131".to_string(),
        hora: "14:30".to_string(),
    };
    assert_eq!(consulta.get_key(), 77);
    assert_eq!(Consulta::from_bytes(&consulta.to_bytes().unwrap()), Ok(consulta));
    let diaria = Diaria { codigo_dia: u32::MAX, codigo_especialidade: 0, quantidade_consultas: 1 };
    assert_eq!(Diaria::from_bytes(&diaria.to_bytes().unwrap()), Ok(diaria));
    let especialidade = Especialidade {
        codigo_especialidade: 4,
        descricao: "Cardiologia".to_string(),
        valor_consulta: 250.75f32.to_bits(),
        limite_diario: 12,
    };
    assert_eq!(especialidade.get_key(), 4);
    assert_eq!(Especialidade::from_bytes(&especialidade.to_bytes().unwrap()), Ok(especialidade));
    let exame = Exame {
        codigo_exame: 3,
        descricao: "Eletrocardiograma".to_string(),
        codigo_especialidade: 4,
        valor_exame: 99.9f32.to_bits(),
    };
    assert_eq!(exame.get_key(), 3);
    assert_eq!(Exame::from_bytes(&exame.to_bytes().unwrap()), Ok(exame));
    let medico = Medico {
        codigo_medico: 8,
        nome: "Dra. Íris".to_string(),
        endereco: "Av. Brasil, 1500".to_string(),
        telefone: "5555-0199".to_string(),
        codigo_cidade: 9,
        codigo_especialidade: 4,
    };
    assert_eq!(medico.get_key(), 8);
    assert_eq!(Medico::from_bytes(&medico.to_bytes().unwrap()), Ok(medico));
    let paciente = sample_paciente();
    assert_eq!(paciente.get_key(), 42);
    assert_eq!(Paciente::from_bytes(&paciente.to_bytes().unwrap()), Ok(paciente));
}

#[test]
fn round_trip_of_empty_texts() {
    let medico = Medico::default();
    let bytes = medico.to_bytes().unwrap();
    assert_eq!(bytes.len(), 4 + 4 + 4 + 4 + 4 + 4);
    assert_eq!(Medico::from_bytes(&bytes), Ok(medico));
}

#[test]
fn paciente_payload_length_is_the_sum_of_its_fields() {
    let p = sample_paciente();
    let bytes = p.to_bytes().unwrap();
    let texts = p.nome.len() + p.data_nascimento.len() + p.endereco.len() + p.telefone.len();
    assert_eq!(bytes.len(), 4 + 4 * 4 + texts + 4 + 4 + 4);
    assert_eq!(&bytes[0..4], &[42, 0, 0, 0]);
    assert_eq!(&bytes[bytes.len() - 4..], &1.68f32.to_le_bytes());
    assert_eq!(&bytes[bytes.len() - 8..bytes.len() - 4], &61.5f32.to_le_bytes());
}

#[test]
fn decoding_every_truncation_of_a_payload_fails_cleanly() {
    let bytes = sample_paciente().to_bytes().unwrap();
    for cut in 0..bytes.len() {
        assert_eq!(Paciente::from_bytes(&bytes[..cut]), Err(StoreError::Decode));
    }
    let consulta = Consulta {
        codigo_consulta: 1,
        codigo_paciente: 2,
        codigo_medico: 3,
        codigo_exame: 4,
        data: "20240101".to_string(),
        hora: "08:00".to_string(),
    };
    let bytes = consulta.to_bytes().unwrap();
    for cut in 0..bytes.len() {
        assert_eq!(Consulta::from_bytes(&bytes[..cut]), Err(StoreError::Decode));
    }
    assert_eq!(Diaria::from_bytes(&[]), Err(StoreError::Decode));
    assert_eq!(Diaria::from_bytes(&[0; 11]), Err(StoreError::Decode));
}

#[test]
fn decoding_ignores_bytes_behind_the_last_field() {
    let d = Diaria { codigo_dia: 1, codigo_especialidade: 2, quantidade_consultas: 3 };
    let mut bytes = d.to_bytes().unwrap();
    bytes.extend_from_slice(&[9, 9, 9]);
    assert_eq!(Diaria::from_bytes(&bytes), Ok(d));
}

#[test]
fn decoding_invalid_text_bytes_fails() {
    let c = Cidade { codigo_cidade: 5, descricao: "ab".to_string(), estado: "SP".to_string() };
    let mut bytes = c.to_bytes().unwrap();
    bytes[8] = 0xFF;
    assert_eq!(Cidade::from_bytes(&bytes), Err(StoreError::Decode));
    let mut second = c.to_bytes().unwrap();
    let last = second.len() - 1;
    second[last] = 0x80;
    assert_eq!(Cidade::from_bytes(&second), Err(StoreError::Decode));
}

#[test]
fn error_messages() {
    assert_eq!(StoreError::AlreadyExists.message(), "Record with this key already exists.");
    assert_ne!(StoreError::Io.message(), StoreError::Decode.message());
    assert_ne!(StoreError::TooLarge.message(), StoreError::Decode.message());
}
