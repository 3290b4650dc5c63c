use ca4rs::rule::Rule;
use ca4rs::CaError;

#[test]
fn number_gives_the_bits_of_the_number() {
    for n in 0..=255u8 {
        let rule = Rule::number(n).unwrap();
        for k in 0..8u8 {
            assert_eq!(rule.lookup(k), (n >> k) & 1);
        }
    }
}

#[test]
fn rule_30_table() {
    let rule = Rule::number(30).unwrap();
    assert_eq!(rule.lookup(0b000), 0);
    assert_eq!(rule.lookup(0b001), 1);
    assert_eq!(rule.lookup(0b010), 1);
    assert_eq!(rule.lookup(0b011), 1);
    assert_eq!(rule.lookup(0b100), 1);
    assert_eq!(rule.lookup(0b101), 0);
    assert_eq!(rule.lookup(0b110), 0);
    assert_eq!(rule.lookup(0b111), 0);
}

#[test]
fn new_takes_the_outputs_in_wolfram_order() {
    let rule = Rule::new([0, 1, 1, 0, 1, 1, 1, 0]).unwrap();
    assert_eq!(rule.lookup(7), 0);
    assert_eq!(rule.lookup(6), 1);
    assert_eq!(rule.lookup(5), 1);
    assert_eq!(rule.lookup(4), 0);
    assert_eq!(rule.lookup(3), 1);
    assert_eq!(rule.lookup(2), 1);
    assert_eq!(rule.lookup(1), 1);
    assert_eq!(rule.lookup(0), 0);
}

#[test]
fn new_pins_index_0_to_neighbourhood_111() {
    let rule = Rule::new([1, 0, 0, 0, 0, 0, 0, 0]).unwrap();
    assert_eq!(rule.lookup(7), 1);
    for code in 0..7u8 {
        assert_eq!(rule.lookup(code), 0);
    }
    let same = Rule::number(128).unwrap();
    for code in 0..8u8 {
        assert_eq!(rule.lookup(code), same.lookup(code));
    }
}

#[test]
fn new_and_number_agree_on_rule_30() {
    let by_array = Rule::new([0, 0, 0, 1, 1, 1, 1, 0]).unwrap();
    let by_number = Rule::number(30).unwrap();
    for code in 0..8u8 {
        assert_eq!(by_array.lookup(code), by_number.lookup(code));
    }
}

#[test]
fn new_refuses_an_entry_that_is_no_cell() {
    assert!(matches!(
        Rule::new([0, 1, 2, 0, 1, 1, 1, 0]),
        Err(CaError::InvalidRule { found: 2 })
    ));
    assert!(matches!(
        Rule::new([0, 1, 1, 0, 1, 1, 1, 255]),
        Err(CaError::InvalidRule { found: 255 })
    ));
}

#[test]
fn new_reports_the_first_entry_that_is_no_cell() {
    assert!(matches!(
        Rule::new([0, 1, 5, 1, 9, 1, 1, 0]),
        Err(CaError::InvalidRule { found: 5 })
    ));
}

#[test]
fn lookup_outside_the_eight_codes_is_0() {
    let rule = Rule::number(255).unwrap();
    assert_eq!(rule.lookup(7), 1);
    assert_eq!(rule.lookup(8), 0);
    assert_eq!(rule.lookup(31), 0);
    assert_eq!(rule.lookup(255), 0);
}

#[test]
fn new_and_number_agree_on_every_rule() {
    for n in 0..=255u8 {
        let mut map = [0u8; 8];
        for (i, entry) in map.iter_mut().enumerate() {
            *entry = (n >> (7 - i)) & 1;
        }
        let by_array = Rule::new(map).unwrap();
        let by_number = Rule::number(n).unwrap();
        for code in 0..8u8 {
            assert_eq!(by_array.lookup(code), by_number.lookup(code));
        }
    }
}
