use titans::service::{cpu_row, sampling_done, Bit};

#[test]
fn cpu_rows() {
    assert_eq!(
        cpu_row(1, 3, String::from("12.5")),
        vec![String::from("CPU1"), String::from("To[3]Refresh"), String::from("12.5")]
    );
    assert_eq!(cpu_row(0, 10, String::new())[0], "CPU0");
    assert_eq!(cpu_row(18446744073709551615, 1, String::new())[0], "CPU18446744073709551615");
}

#[test]
fn sampling_stops_after_n_plus_one_rounds() {
    let n = 3;
    let mut t = 0;
    let mut rounds = 0;
    loop {
        t += 1;
        rounds += 1;
        if sampling_done(t, n) {
            break;
        }
    }
    assert_eq!(rounds, 4);
    assert!(sampling_done(1, 0));
    assert!(sampling_done(1, -5));
    assert!(!sampling_done(5, 5));
}

#[test]
fn bit_holds_its_base() {
    let b = Bit { base: String::from("{}") };
    assert_eq!(b.base, "{}");
}
