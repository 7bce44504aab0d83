use wham::errors::usize_to_string;
use wham::output::dataset_label;
use wham::output::pmf_header;

#[test]
fn pmf_header_one_dimension() {
    assert_eq!("#coord1    Free Energy    +/-    Probability    +/-", pmf_header(1));
}

#[test]
fn pmf_header_two_dimensions() {
    assert_eq!(
        "#coord1    coord2    Free Energy    +/-    Probability    +/-",
        pmf_header(2)
    );
}

#[test]
fn dataset_label_numbers_blocks() {
    assert_eq!("#Dataset 1", dataset_label(1));
    assert_eq!("#Dataset 10", dataset_label(10));
}

#[test]
fn decimal_rendering() {
    assert_eq!("0", usize_to_string(0));
    assert_eq!("7", usize_to_string(7));
    assert_eq!("10", usize_to_string(10));
    assert_eq!("124226", usize_to_string(124226));
    assert_eq!("18446744073709551615", usize_to_string(usize::MAX));
}
