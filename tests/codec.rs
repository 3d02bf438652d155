use send::codec::{check_dictionary, TransportPresenter};
use send::errors::FetchError;
use send::network::Ipv4Address;
use send::transport::{ClientTransport, PartialTransport, ServerTransport, Transportable};

fn words(list: &[&str]) -> Vec<String> {
    list.iter().map(|w| w.to_string()).collect()
}

fn four_words() -> TransportPresenter {
    let dict = words(&["w0", "w1", "w2", "w3"]);
    assert!(check_dictionary(&dict));
    TransportPresenter::new(dict, 4)
}

fn large_dictionary() -> TransportPresenter {
    let dict: Vec<String> = (0..1000).map(|i| format!("word{:04}", i)).collect();
    assert!(check_dictionary(&dict));
    TransportPresenter::new(dict, 1000)
}

fn decode(p: &TransportPresenter, code: &str) -> Result<u32, String> {
    match p.present_inv(code.to_string()) {
        Ok(t) => Ok(t.state()),
        Err(FetchError::InvalidTransport(w)) => Err(w),
        Err(_) => panic!("unexpected error kind"),
    }
}

#[test]
fn dictionary_checks() {
    assert!(check_dictionary(&words(&["a", "b"])));
    assert!(check_dictionary(&words(&["a", "ab", "b", "ba"])));
    assert!(!check_dictionary(&words(&["a"])));
    assert!(!check_dictionary(&words(&[])));
    assert!(!check_dictionary(&words(&["b", "a"])));
    assert!(!check_dictionary(&words(&["a", "a"])));
    assert!(!check_dictionary(&words(&["a", "b c"])));
    assert!(!check_dictionary(&words(&["B", "a", "A"])));
    assert!(check_dictionary(&words(&["B", "a", "\u{e9}"])));
}

#[test]
fn state_one_of_fifteen_is_two_words() {
    let p = four_words();
    let code = p.present(&ServerTransport::new(1, 15));
    assert_eq!(code, "w1 w0");
    assert_eq!(decode(&p, &code), Ok(1));
}

#[test]
fn digits_are_least_significant_first() {
    let p = four_words();
    assert_eq!(p.present(&ServerTransport::new(4, 15)), "w0 w1");
    assert_eq!(p.present(&ServerTransport::new(14, 15)), "w2 w3");
    assert_eq!(p.present(&ServerTransport::new(27, 63)), "w3 w2 w1");
    assert_eq!(decode(&p, "w3 w2 w1"), Ok(27));
}

#[test]
fn word_count_follows_the_bound() {
    let p = four_words();
    let count = |max: u32| p.present(&ServerTransport::new(0, max)).split(' ').count();
    assert_eq!(count(0), 1);
    assert_eq!(count(1), 1);
    assert_eq!(count(3), 1);
    assert_eq!(count(4), 2);
    assert_eq!(count(15), 2);
    assert_eq!(count(16), 3);
    assert_eq!(count(u32::MAX), 16);
    let q = large_dictionary();
    assert_eq!(q.present(&ServerTransport::new(0, 999)).split(' ').count(), 1);
    assert_eq!(q.present(&ServerTransport::new(0, 1000)).split(' ').count(), 2);
    assert_eq!(q.present(&ServerTransport::new(0, u32::MAX)).split(' ').count(), 4);
}

#[test]
fn every_state_round_trips_under_a_small_bound() {
    let p = four_words();
    for max in [0u32, 3, 15, 16, 100] {
        for state in 0..=max {
            let code = p.present(&ServerTransport::new(state, max));
            assert_eq!(decode(&p, &code), Ok(state), "state {} under {}", state, max);
        }
    }
}

#[test]
fn addresses_round_trip() {
    let q = large_dictionary();
    for bits in [0u32, 1, 999, 1000, 0x7f00_0001, 0xc0a8_0101, u32::MAX - 1, u32::MAX] {
        let addr = Ipv4Address::from_bits(bits);
        let code = q.present(&addr.make_transport());
        let back = q.present_inv(code).ok().unwrap();
        assert_eq!(Ipv4Address::from_transport(back), addr);
    }
    let p = four_words();
    let code = p.present(&Ipv4Address::new(10, 0, 0, 1).make_transport());
    assert_eq!(code.split(' ').count(), 16);
    assert_eq!(decode(&p, &code), Ok(0x0a00_0001));
}

#[test]
fn unknown_word_is_rejected_by_name() {
    let p = four_words();
    assert_eq!(decode(&p, "notaword"), Err("notaword".to_string()));
    assert_eq!(decode(&p, "w1 notaword w2"), Err("notaword".to_string()));
    assert_eq!(decode(&p, "w1 x y"), Err("x".to_string()));
    let q = large_dictionary();
    assert_eq!(decode(&q, "notaword"), Err("notaword".to_string()));
}

#[test]
fn matching_is_exact() {
    let p = four_words();
    assert_eq!(decode(&p, "W1"), Err("W1".to_string()));
    assert_eq!(decode(&p, "w1 "), Err("".to_string()));
    assert_eq!(decode(&p, "w1  w2"), Err("".to_string()));
    assert_eq!(decode(&p, ""), Err("".to_string()));
}

#[test]
fn values_beyond_32_bits_are_rejected() {
    let p = four_words();
    let all_threes = vec!["w3"; 16].join(" ");
    assert_eq!(decode(&p, &all_threes), Ok(u32::MAX));
    let one_more = vec!["w3"; 17].join(" ");
    assert_eq!(decode(&p, &one_more), Err("w3".to_string()));
    let mut zeros = vec!["w1"];
    zeros.extend(vec!["w0"; 40]);
    assert_eq!(decode(&p, &zeros.join(" ")), Ok(1));
}

#[test]
fn client_transport_holds_its_state() {
    assert_eq!(ClientTransport::new(42).state(), 42);
}
