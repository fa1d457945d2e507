use rlx_fft::bench_sweep::{parse_batch_spec, parse_csv_usize, parse_k_spec};
use rlx_fft::spec_list::{parse_usize_range, power_of_two_inclusive, ListError};

#[test]
fn batch_range_pow2() {
    assert_eq!(
        parse_batch_spec("1-1024", "batch").unwrap(),
        vec![1, 2, 4, 8, 16, 32, 64, 128, 256, 512, 1024]
    );
}

#[test]
fn k_range_pow2() {
    assert_eq!(parse_k_spec("4-64", "--k").unwrap(), vec![4, 8, 16, 32, 64]);
}

#[test]
fn lists_keep_order_and_skip_blanks() {
    assert_eq!(parse_csv_usize(" 8, ,2,,8 ", "--n-fft").unwrap(), vec![8, 2, 8]);
    assert_eq!(parse_batch_spec(" 3,5 ", "--batch").unwrap(), vec![3, 5]);
}

#[test]
fn list_errors_name_label_and_entry() {
    match parse_csv_usize("1,x", "--n-fft") {
        Err(ListError::BadValue { label, part }) => {
            assert_eq!(label, "--n-fft");
            assert_eq!(part, "x");
        }
        other => panic!("{other:?}"),
    }
    match parse_csv_usize(" , ", "--batch") {
        Err(e) => assert_eq!(e.message(), "--batch must list at least one value"),
        other => panic!("{other:?}"),
    }
    match parse_batch_spec("5-7", "--batch") {
        Err(e) => assert_eq!(
            e.message(),
            "--batch range 5-7 contains no power-of-two batch sizes"
        ),
        other => panic!("{other:?}"),
    }
    match parse_csv_usize("1,x", "--n-fft") {
        Err(e) => assert_eq!(e.message(), "--n-fft value x"),
        other => panic!("{other:?}"),
    }
}

#[test]
fn ranges_are_read_with_each_separator() {
    assert_eq!(parse_usize_range("1..=8"), Some((1, 8)));
    assert_eq!(parse_usize_range("1 .. 8"), Some((1, 8)));
    assert_eq!(parse_usize_range("4-64"), Some((4, 64)));
    assert_eq!(parse_usize_range("4,64"), None);
    assert_eq!(power_of_two_inclusive(3, 17), vec![4, 8, 16]);
    assert_eq!(power_of_two_inclusive(9, 3), Vec::<usize>::new());
    let all = power_of_two_inclusive(0, usize::MAX);
    assert_eq!(all.len(), usize::BITS as usize);
}
