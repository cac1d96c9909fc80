use chaosring::roles::{find_dao_role, parse_role_id, DaoRole};

#[test]
fn parse_accepts_plain_decimals() {
    assert_eq!(parse_role_id(String::from("123")), Some(123));
    assert_eq!(parse_role_id(String::from("0")), Some(0));
    assert_eq!(parse_role_id(String::from("987654321012345678")), Some(987654321012345678));
}

#[test]
fn parse_accepts_a_leading_plus() {
    assert_eq!(parse_role_id(String::from("+42")), Some(42));
}

#[test]
fn parse_accepts_the_largest_value() {
    assert_eq!(
        parse_role_id(String::from("18446744073709551615")),
        Some(u64::MAX)
    );
}

#[test]
fn parse_rejects_overflow() {
    assert_eq!(parse_role_id(String::from("18446744073709551616")), None);
    assert_eq!(parse_role_id(String::from("99999999999999999999")), None);
}

#[test]
fn parse_rejects_malformed_strings() {
    assert_eq!(parse_role_id(String::from("")), None);
    assert_eq!(parse_role_id(String::from("+")), None);
    assert_eq!(parse_role_id(String::from("12a")), None);
    assert_eq!(parse_role_id(String::from("-5")), None);
    assert_eq!(parse_role_id(String::from(" 7")), None);
}

#[test]
fn parse_agrees_with_the_standard_parser() {
    for s in ["0", "+0", "17", "+0042", "18446744073709551615", "18446744073709551616", "", "+", "x", "1 2"] {
        assert_eq!(parse_role_id(String::from(s)), s.parse::<u64>().ok(), "input {:?}", s);
    }
}

#[test]
fn daoist_role_takes_precedence() {
    let roles: Vec<u64> = vec![1, 2, 3];
    let found = find_dao_role(&roles, 1, 2, 3).unwrap();
    assert_eq!(found, DaoRole::DAOists);
}

#[test]
fn regular_role_beats_fren() {
    let roles: Vec<u64> = vec![1, 2];
    let found = find_dao_role(&roles, 1, 2, 3).unwrap();
    assert_eq!(found, DaoRole::Regulars);
}

#[test]
fn fren_role_is_found_last() {
    let roles: Vec<u64> = vec![1];
    let found = find_dao_role(&roles, 1, 2, 3).unwrap();
    assert_eq!(found, DaoRole::Frens);
}

#[test]
fn missing_roles_are_reported() {
    let roles: Vec<u64> = vec![9, 10];
    let err = find_dao_role(&roles, 1, 2, 3).unwrap_err();
    assert_eq!(err.message().as_str(), "User is not a DAOist, regular or fren");
}
