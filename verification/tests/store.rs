use clinic_store::agenda::{atualizar_diaria, ha_vaga};
use clinic_store::db::file_manager::{encode_header, read_header, Entity, FileManager};
use clinic_store::db::frames::{ACTIVE, DELETED, HEADER_LEN};
use clinic_store::error::StoreError;
use clinic_store::structs::cidade::Cidade;
use clinic_store::structs::diaria::Diaria;
use clinic_store::structs::medico::Medico;

fn person(code: u32, name: &str) -> Medico {
    Medico {
        codigo_medico: code,
        nome: name.to_string(),
        endereco: String::new(),
        telefone: String::new(),
        codigo_cidade: 0,
        codigo_especialidade: 0,
    }
}

fn day(code: u32, count: u32) -> Diaria {
    Diaria { codigo_dia: code, codigo_especialidade: 1, quantidade_consultas: count }
}

fn day_of(code: u32, specialty: u32, count: u32) -> Diaria {
    Diaria { codigo_dia: code, codigo_especialidade: specialty, quantidade_consultas: count }
}

fn open<T: Entity>(bytes: Vec<u8>) -> FileManager<T> {
    match FileManager::<T>::new(bytes) {
        Ok(table) => table,
        Err(e) => panic!("open failed: {:?}", e),
    }
}

fn open_error<T: Entity>(bytes: Vec<u8>) -> StoreError {
    match FileManager::<T>::new(bytes) {
        Ok(_) => panic!("open succeeded"),
        Err(e) => e,
    }
}

fn frame(flag: u8, payload: &[u8]) -> Vec<u8> {
    let mut out = vec![flag];
    out.extend_from_slice(&(payload.len() as u32).to_le_bytes());
    out.extend_from_slice(payload);
    out
}

#[test]
fn header_constants() {
    assert_eq!(HEADER_LEN, 5);
    assert_eq!(ACTIVE, 1);
    assert_eq!(DELETED, 0);
}

#[test]
fn encode_header_is_flag_then_little_endian_length() {
    assert_eq!(encode_header(1, 0), Ok(vec![1, 0, 0, 0, 0]));
    assert_eq!(encode_header(1, 0x0102), Ok(vec![1, 2, 1, 0, 0]));
    assert_eq!(encode_header(0, u32::MAX as usize), Ok(vec![0, 0xFF, 0xFF, 0xFF, 0xFF]));
}

#[test]
fn encode_header_refuses_a_payload_over_four_bytes_of_length() {
    if usize::BITS > 32 {
        let too_long = (u32::MAX as u64 + 1) as usize;
        assert_eq!(encode_header(1, too_long), Err(StoreError::TooLarge));
    }
}

#[test]
fn read_header_gives_flag_and_end_of_frame() {
    let mut data = frame(1, &[7, 7, 7]);
    data.extend_from_slice(&frame(0, &[]));
    assert_eq!(read_header(&data, 0), Ok((1, 8)));
    assert_eq!(read_header(&data, 8), Ok((0, 13)));
}

#[test]
fn read_header_fails_where_no_whole_frame_follows() {
    let data = frame(1, &[7, 7, 7]);
    assert_eq!(read_header(&data, 8), Err(StoreError::Io));
    assert_eq!(read_header(&data, 4), Err(StoreError::Io));
    assert_eq!(read_header(&data, 100), Err(StoreError::Io));
    assert_eq!(read_header(&data[..7], 0), Err(StoreError::Io));
    assert_eq!(read_header(&data[..4], 0), Err(StoreError::Io));
    assert_eq!(read_header(&[], 0), Err(StoreError::Io));
}

#[test]
fn open_of_an_empty_file() {
    let table = open::<Diaria>(Vec::new());
    assert_eq!(table.len(), 0);
    assert_eq!(table.read_all_records(), Ok(vec![]));
    assert_eq!(table.read_record(1), Ok(None));
    assert_eq!(table.offset_of(1), None);
}

#[test]
fn create_writes_header_and_payload_at_the_end() {
    let mut table = open::<Diaria>(Vec::new());
    assert_eq!(table.create_record(&day(20240101, 2), 20240101), Ok(()));
    let payload = day(20240101, 2).to_bytes().unwrap();
    assert_eq!(table.as_bytes(), &frame(1, &payload)[..]);
    assert_eq!(table.len(), 5 + 12);
    assert_eq!(table.offset_of(20240101), Some(0));
    assert_eq!(table.create_record(&day(20240102, 1), 20240102), Ok(()));
    assert_eq!(table.offset_of(20240102), Some(17));
    assert_eq!(table.len(), 34);
    assert_eq!(&table.as_bytes()[..17], &frame(1, &payload)[..]);
}

#[test]
fn read_finds_what_create_stored() {
    let mut table = open::<Cidade>(Vec::new());
    let a = Cidade { codigo_cidade: 1, descricao: "Assis".to_string(), estado: "SP".to_string() };
    let b = Cidade { codigo_cidade: 2, descricao: "Londrina".to_string(), estado: "PR".to_string() };
    assert_eq!(table.create_record(&a, 1), Ok(()));
    assert_eq!(table.create_record(&b, 2), Ok(()));
    assert_eq!(table.read_record(1), Ok(Some(a)));
    assert_eq!(table.read_record(2), Ok(Some(b)));
    assert_eq!(table.read_record(3), Ok(None));
}

#[test]
fn create_under_a_used_key_fails_and_changes_nothing() {
    let mut table = open::<Medico>(Vec::new());
    assert_eq!(table.create_record(&person(1, "Alice"), 1), Ok(()));
    let before = table.as_bytes().to_vec();
    assert_eq!(table.create_record(&person(1, "Mallory"), 1), Err(StoreError::AlreadyExists));
    assert_eq!(table.as_bytes(), &before[..]);
    assert_eq!(table.read_record(1), Ok(Some(person(1, "Alice"))));
    assert_eq!(table.read_all_records(), Ok(vec![person(1, "Alice")]));
}

#[test]
fn delete_of_a_key_never_created_is_false() {
    let mut table = open::<Medico>(Vec::new());
    assert_eq!(table.delete_record(9), Ok(false));
    assert_eq!(table.create_record(&person(1, "Alice"), 1), Ok(()));
    let before = table.as_bytes().to_vec();
    assert_eq!(table.delete_record(9), Ok(false));
    assert_eq!(table.as_bytes(), &before[..]);
}

#[test]
fn delete_twice_is_true_then_false() {
    let mut table = open::<Medico>(Vec::new());
    assert_eq!(table.create_record(&person(1, "Alice"), 1), Ok(()));
    assert_eq!(table.delete_record(1), Ok(true));
    assert_eq!(table.delete_record(1), Ok(false));
}

#[test]
fn delete_clears_only_the_flag_byte() {
    let mut table = open::<Medico>(Vec::new());
    assert_eq!(table.create_record(&person(1, "Alice"), 1), Ok(()));
    assert_eq!(table.create_record(&person(2, "Bob"), 2), Ok(()));
    let before = table.as_bytes().to_vec();
    let at = table.offset_of(2).unwrap() as usize;
    assert_eq!(before[at], 1);
    assert_eq!(table.delete_record(2), Ok(true));
    let mut expected = before.clone();
    expected[at] = 0;
    assert_eq!(table.as_bytes(), &expected[..]);
    assert_eq!(table.offset_of(2), None);
    assert_eq!(table.offset_of(1), Some(0));
}

#[test]
fn a_deleted_record_is_gone_from_read_and_read_all_but_not_from_the_file() {
    let mut table = open::<Medico>(Vec::new());
    assert_eq!(table.create_record(&person(1, "Alice"), 1), Ok(()));
    let empty_len = 0;
    let with_record = table.len();
    assert!(with_record > empty_len);
    assert_eq!(table.delete_record(1), Ok(true));
    assert_eq!(table.read_record(1), Ok(None));
    assert_eq!(table.read_all_records(), Ok(vec![]));
    assert_eq!(table.len(), with_record);
}

#[test]
fn a_deleted_key_can_be_created_again() {
    let mut table = open::<Medico>(Vec::new());
    assert_eq!(table.create_record(&person(1, "Alice"), 1), Ok(()));
    assert_eq!(table.delete_record(1), Ok(true));
    assert_eq!(table.create_record(&person(1, "Alicia"), 1), Ok(()));
    assert_eq!(table.read_record(1), Ok(Some(person(1, "Alicia"))));
    assert_eq!(table.read_all_records(), Ok(vec![person(1, "Alicia")]));
    let reopened = open::<Medico>(table.as_bytes().to_vec());
    assert_eq!(reopened.read_record(1), Ok(Some(person(1, "Alicia"))));
}

#[test]
fn reopening_gives_the_same_index_and_the_same_records() {
    let mut table = open::<Diaria>(Vec::new());
    for i in 0..25u32 {
        assert_eq!(table.create_record(&day(100 + i, i), 100 + i), Ok(()));
    }
    let reopened = open::<Diaria>(table.as_bytes().to_vec());
    assert_eq!(reopened.as_bytes(), table.as_bytes());
    assert_eq!(reopened.read_all_records(), table.read_all_records());
    for i in 0..25u32 {
        assert_eq!(reopened.offset_of(100 + i), table.offset_of(100 + i));
        assert_eq!(reopened.offset_of(100 + i), Some(17 * i as u64));
        assert_eq!(reopened.read_record(100 + i), Ok(Some(day(100 + i, i))));
    }
    assert_eq!(reopened.offset_of(99), None);
    assert_eq!(reopened.offset_of(125), None);
}

#[test]
fn read_all_keeps_the_order_of_creation_through_deletes() {
    let mut table = open::<Medico>(Vec::new());
    for (code, name) in [(5u32, "e"), (3, "c"), (9, "i"), (1, "a"), (7, "g")] {
        assert_eq!(table.create_record(&person(code, name), code), Ok(()));
    }
    assert_eq!(table.delete_record(9), Ok(true));
    assert_eq!(table.create_record(&person(4, "d"), 4), Ok(()));
    assert_eq!(table.delete_record(5), Ok(true));
    assert_eq!(
        table.read_all_records(),
        Ok(vec![person(3, "c"), person(1, "a"), person(7, "g"), person(4, "d")])
    );
}

#[test]
fn alice_and_bob() {
    let mut table = open::<Medico>(Vec::new());
    assert_eq!(table.create_record(&person(1, "Alice"), 1), Ok(()));
    assert_eq!(table.create_record(&person(2, "Bob"), 2), Ok(()));
    assert_eq!(table.delete_record(1), Ok(true));
    let reopened = open::<Medico>(table.as_bytes().to_vec());
    assert_eq!(reopened.read_all_records(), Ok(vec![person(2, "Bob")]));
    assert_eq!(reopened.read_record(1), Ok(None));
    assert_eq!(reopened.read_record(2), Ok(Some(person(2, "Bob"))));
}

#[test]
fn open_fails_on_a_partial_header() {
    let mut data = frame(1, &day(1, 1).to_bytes().unwrap());
    data.extend_from_slice(&[1, 12, 0]);
    assert_eq!(open_error::<Diaria>(data), StoreError::Io);
    assert_eq!(open_error::<Diaria>(vec![1]), StoreError::Io);
    assert_eq!(open_error::<Diaria>(vec![0, 0, 0, 0]), StoreError::Io);
}

#[test]
fn open_fails_on_a_payload_that_overruns_the_file() {
    let mut data = frame(1, &day(1, 1).to_bytes().unwrap());
    data.pop();
    assert_eq!(open_error::<Diaria>(data), StoreError::Io);
    assert_eq!(open_error::<Diaria>(vec![0, 1, 0, 0, 0]), StoreError::Io);
    assert_eq!(open_error::<Diaria>(vec![0, 0xFF, 0xFF, 0xFF, 0xFF, 1, 2, 3]), StoreError::Io);
}

#[test]
fn open_fails_on_a_live_payload_that_does_not_decode() {
    assert_eq!(open_error::<Diaria>(frame(1, &[1, 2, 3])), StoreError::Decode);
    let mut data = frame(1, &day(1, 1).to_bytes().unwrap());
    data.extend_from_slice(&frame(1, &[]));
    assert_eq!(open_error::<Diaria>(data), StoreError::Decode);
    let bad_text = frame(1, &[1, 0, 0, 0, 1, 0, 0, 0, 0xFF, 0, 0, 0, 0]);
    assert_eq!(open_error::<Cidade>(bad_text), StoreError::Decode);
}

#[test]
fn open_reports_the_first_failure() {
    let mut data = frame(1, &[1, 2, 3]);
    data.extend_from_slice(&[1, 9]);
    assert_eq!(open_error::<Diaria>(data), StoreError::Decode);
    let mut other = frame(0, &[1, 2, 3]);
    other.extend_from_slice(&[1, 9]);
    assert_eq!(open_error::<Diaria>(other), StoreError::Io);
}

#[test]
fn open_walks_over_deleted_frames_without_decoding_them() {
    let mut data = frame(0, &[0xFF, 0xFF]);
    data.extend_from_slice(&frame(1, &day(7, 70).to_bytes().unwrap()));
    data.extend_from_slice(&frame(0, &[]));
    data.extend_from_slice(&frame(2, &[9]));
    let table = open::<Diaria>(data);
    assert_eq!(table.read_all_records(), Ok(vec![day(7, 70)]));
    assert_eq!(table.offset_of(7), Some(7));
    assert_eq!(table.read_record(7), Ok(Some(day(7, 70))));
}

#[test]
fn open_indexes_the_first_of_two_live_records_with_one_key() {
    let mut data = frame(1, &day(7, 1).to_bytes().unwrap());
    data.extend_from_slice(&frame(1, &day(7, 2).to_bytes().unwrap()));
    let mut table = open::<Diaria>(data);
    assert_eq!(table.offset_of(7), Some(0));
    assert_eq!(table.read_record(7), Ok(Some(day(7, 1))));
    assert_eq!(table.read_all_records(), Ok(vec![day(7, 1), day(7, 2)]));
    assert_eq!(table.delete_record(7), Ok(true));
    assert_eq!(table.read_record(7), Ok(None));
    assert_eq!(table.read_all_records(), Ok(vec![day(7, 2)]));
}

#[test]
fn a_record_created_under_another_key_is_indexed_by_its_own_after_reopening() {
    let mut table = open::<Diaria>(Vec::new());
    assert_eq!(table.create_record(&day(1, 10), 2), Ok(()));
    assert_eq!(table.read_record(2), Ok(Some(day(1, 10))));
    assert_eq!(table.read_record(1), Ok(None));
    let reopened = open::<Diaria>(table.as_bytes().to_vec());
    assert_eq!(reopened.read_record(1), Ok(Some(day(1, 10))));
    assert_eq!(reopened.read_record(2), Ok(None));
    assert_eq!(reopened.read_all_records(), table.read_all_records());
}

#[test]
fn create_then_delete_leaves_read_all_as_it_was() {
    let mut table = open::<Medico>(Vec::new());
    assert_eq!(table.create_record(&person(1, "Alice"), 1), Ok(()));
    let before = table.read_all_records();
    let len_before = table.len();
    assert_eq!(table.create_record(&person(2, "Bob"), 2), Ok(()));
    assert_eq!(table.delete_record(2), Ok(true));
    assert_eq!(table.read_all_records(), before);
    assert!(table.len() >= len_before);
}

#[test]
fn a_day_without_record_has_room_under_a_positive_limit() {
    assert!(ha_vaga(&None, 1));
    assert!(!ha_vaga(&None, 0));
}

#[test]
fn a_day_has_room_until_its_count_reaches_the_limit() {
    assert!(ha_vaga(&Some(day(20240101, 2)), 3));
    assert!(!ha_vaga(&Some(day(20240101, 3)), 3));
    assert!(!ha_vaga(&Some(day(20240101, 4)), 3));
}

#[test]
fn the_first_consultation_of_a_day_creates_its_record() {
    let mut table = open::<Diaria>(Vec::new());
    assert_eq!(atualizar_diaria(&mut table, 20240101, 7, 1), Ok(()));
    assert_eq!(
        table.read_record(20240101),
        Ok(Some(Diaria {
            codigo_dia: 20240101,
            codigo_especialidade: 7,
            quantidade_consultas: 1
        }))
    );
    assert_eq!(table.len(), 17);
}

#[test]
fn a_cancellation_on_a_day_without_record_does_nothing() {
    let mut table = open::<Diaria>(Vec::new());
    assert_eq!(atualizar_diaria(&mut table, 20240101, 7, -1), Ok(()));
    assert_eq!(atualizar_diaria(&mut table, 20240101, 7, 0), Ok(()));
    assert_eq!(table.len(), 0);
    assert_eq!(table.read_record(20240101), Ok(None));
}

#[test]
fn a_day_that_has_a_record_keeps_its_count() {
    let mut table = open::<Diaria>(Vec::new());
    assert_eq!(atualizar_diaria(&mut table, 20240101, 7, 1), Ok(()));
    let before = table.as_bytes().to_vec();
    assert_eq!(atualizar_diaria(&mut table, 20240101, 7, 1), Err(StoreError::AlreadyExists));
    assert_eq!(atualizar_diaria(&mut table, 20240101, 7, -1), Err(StoreError::AlreadyExists));
    assert_eq!(atualizar_diaria(&mut table, 20240101, 7, i32::MIN), Err(StoreError::AlreadyExists));
    assert_eq!(atualizar_diaria(&mut table, 20240101, 7, i32::MAX), Err(StoreError::AlreadyExists));
    assert_eq!(table.as_bytes(), &before[..]);
    assert_eq!(table.read_record(20240101), Ok(Some(day_of(20240101, 7, 1))));
}
