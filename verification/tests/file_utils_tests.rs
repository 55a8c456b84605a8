use stest_lib::file_utils::get_full_file_name;

#[test]
fn get_full_file_name_no_csv_extension_test() {
    assert_eq!("abc.csv".to_string(), get_full_file_name("abc"));
}

#[test]
fn get_full_file_name_with_csv_extension_test() {
    assert_eq!("abc.csv".to_string(), get_full_file_name("abc.csv"));
}

#[test]
fn empty_name_gets_extension() {
    assert_eq!(".csv".to_string(), get_full_file_name(""));
}

#[test]
fn csv_in_middle_still_gets_extension() {
    assert_eq!("a.csv.txt.csv".to_string(), get_full_file_name("a.csv.txt"));
}
