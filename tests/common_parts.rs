use h_analyzer_web::codec::{concat_chunks, decode_frame, decode_table, Reassembler};
use h_analyzer_web::error::{error_from_code, error_from_status, RemoteError};
use h_analyzer_web::table::Table;

fn table_bytes(cols: &Vec<(String, Vec<u64>)>) -> Vec<u8> {
    bincode::serialize(cols).unwrap()
}

#[test]
fn status_codes_map_to_error_kinds() {
    assert_eq!(error_from_code(5), RemoteError::NotFound);
    assert_eq!(error_from_code(7), RemoteError::Denied);
    assert_eq!(error_from_code(16), RemoteError::Denied);
    assert_eq!(error_from_code(14), RemoteError::Transport);
    assert_eq!(error_from_code(0), RemoteError::Transport);
}

#[test]
fn statuses_map_to_error_kinds() {
    assert_eq!(error_from_status(&tonic::Status::not_found("gone")), RemoteError::NotFound);
    assert_eq!(error_from_status(&tonic::Status::permission_denied("no")), RemoteError::Denied);
    assert_eq!(error_from_status(&tonic::Status::unauthenticated("who")), RemoteError::Denied);
    assert_eq!(error_from_status(&tonic::Status::unavailable("down")), RemoteError::Transport);
}

#[test]
fn chunks_concatenate_in_arrival_order() {
    let chunks = vec![vec![1u8, 2], vec![], vec![3, 4, 5]];
    assert_eq!(concat_chunks(&chunks), Some(vec![1, 2, 3, 4, 5]));
    assert_eq!(concat_chunks(&Vec::new()), Some(Vec::new()));
    let mut r = Reassembler::new();
    r.push_chunk(&[9, 8]);
    r.push_chunk(&[7]);
    assert_eq!(r.len(), 3);
    assert_eq!(r.into_bytes(), vec![9, 8, 7]);
}

#[test]
fn table_decodes_from_bincode() {
    let cols = vec![
        ("x".to_string(), vec![1u64, 2, 3]),
        ("y".to_string(), vec![4u64, 5, 6]),
    ];
    let t = decode_table(&table_bytes(&cols)).unwrap();
    assert_eq!(t.height(), 3);
    assert_eq!(t.columns.len(), 2);
    assert_eq!(t.columns[1].name, "y");
    assert_eq!(t.columns[1].values, vec![4, 5, 6]);
}

#[test]
fn ragged_or_repeated_columns_are_decode_errors() {
    let ragged = vec![("x".to_string(), vec![1u64, 2]), ("y".to_string(), vec![4u64])];
    assert_eq!(decode_table(&table_bytes(&ragged)).unwrap_err(), RemoteError::Decode);
    let repeated = vec![("x".to_string(), vec![1u64]), ("x".to_string(), vec![2u64])];
    assert_eq!(decode_table(&table_bytes(&repeated)).unwrap_err(), RemoteError::Decode);
}

#[test]
fn truncated_table_is_decode_error() {
    let cols = vec![("x".to_string(), vec![1u64, 2, 3])];
    let bytes = table_bytes(&cols);
    let cut = &bytes[..bytes.len() - 3];
    assert_eq!(decode_table(cut).unwrap_err(), RemoteError::Decode);
    assert_eq!(decode_table(&[]).unwrap_err(), RemoteError::Decode);
}

#[test]
fn empty_table_has_no_rows() {
    let t = Table::empty();
    assert_eq!(t.height(), 0);
    let t = decode_table(&table_bytes(&Vec::new())).unwrap();
    assert_eq!(t.height(), 0);
}

#[test]
fn frame_decodes_and_truncated_frame_fails() {
    let bytes = bincode::serialize(&(3u64, 1.5f64.to_bits(), vec![1u8, 2])).unwrap();
    let f = decode_frame(&bytes).unwrap();
    assert_eq!(f.frame_index, 3);
    assert_eq!(f.timestamp_bits, 1.5f64.to_bits());
    assert_eq!(f.snapshot, vec![1, 2]);
    assert_eq!(decode_frame(&bytes[..10]).unwrap_err(), RemoteError::Decode);
}
