use sudachi::dic::connect::ConnectionMatrix;
use sudachi::testing::zero_grammar;

#[test]
fn make_zero_grammar() {
    let _ = zero_grammar();
}

#[test]
fn zero_grammar_has_empty_matrix() {
    let g = zero_grammar();
    assert_eq!(g.pos_list.len(), 0);
    assert_eq!(g.connection.num_left(), 0);
    assert_eq!(g.connection.num_right(), 0);
}

#[test]
fn connection_matrix_reads_costs_by_right_then_left() {
    // 2 left ids, 3 right ids, costs 0..6
    let mut bytes = vec![2u8, 0, 3, 0];
    for c in 0i16..6 {
        bytes.extend_from_slice(&(c * 10 - 20).to_le_bytes());
    }
    let m = ConnectionMatrix::from_bytes(&bytes).unwrap();
    assert_eq!(m.num_left(), 2);
    assert_eq!(m.num_right(), 3);
    assert_eq!(m.cost(0, 0), -20);
    assert_eq!(m.cost(1, 0), -10);
    assert_eq!(m.cost(0, 2), 20);
    assert_eq!(m.cost(1, 2), 30);
}

#[test]
fn connection_matrix_refuses_short_or_negative_data() {
    assert!(ConnectionMatrix::from_bytes(&[1, 0]).is_err());
    assert!(ConnectionMatrix::from_bytes(&[2, 0, 2, 0, 0, 0]).is_err());
    assert!(ConnectionMatrix::from_bytes(&[0xff, 0xff, 1, 0]).is_err());
}
