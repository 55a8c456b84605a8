use stest_lib::upload_data::{UploadData, UploadReadError};

#[test]
fn test_read_data() {
    let total_data = 8192 * 4; // 32KB
    let mut buffered = UploadData::new(total_data, 1);
    for _i in 0..4 {
        let mut data_read: Vec<u8> = vec![1; 8192];
        let _ = buffered.read(&mut data_read);
    }
    assert!(buffered.current_size == total_data);
}

#[test]
fn test_smaller_buff_read_data() {
    let total_data = 8192 * 4; // 32KB
    let mut buffered = UploadData::new(total_data, 1);
    let mut num_cycles = 0;
    loop {
        let mut data_read: Vec<u8> = vec![1; 1024];
        let read_response = buffered.read(&mut data_read);
        match read_response {
            Ok(_) => {
                println!("Read data fine");
                num_cycles = num_cycles + 1;
                if buffered.current_size == total_data {
                    break;
                }
            }
            Err(_e) => {
                println!("Timed out");
                break;
            }
        }
    }
    assert!(buffered.current_size == total_data);
    assert!(num_cycles == 32);
}

#[test]
fn test_bigger_buff_read_data() {
    let total_data = 8192 * 4; // 32KB
    let mut buffered = UploadData::new(total_data, 1);
    let mut num_cycles = 0;
    loop {
        // Try reading 32K in one go - but still only 8K is read each time
        let mut data_read: Vec<u8> = vec![1; total_data as usize];
        let read_response = buffered.read(&mut data_read);
        match read_response {
            Ok(_) => {
                println!("Read data fine");
                num_cycles = num_cycles + 1;
                if buffered.current_size == total_data {
                    break;
                }
            }
            Err(_e) => {
                println!("Timed out");
                break;
            }
        }
    }
    println!("Num cycles {:?}", num_cycles);
    assert!(buffered.current_size == total_data);
    assert!(4 == num_cycles);
}

#[test]
fn exact_target_then_clean_end() {
    // pulls that together sum to exactly the target leave the source full,
    // and one more pull is a clean zero-length end, not a failure
    let total_data = 8192 * 2;
    let mut source = UploadData::new(total_data, 60);
    let mut emitted = 0usize;
    while emitted < total_data as usize {
        let mut buf: Vec<u8> = vec![0; 8192];
        emitted += source.read(&mut buf).unwrap();
    }
    assert_eq!(source.current_size, total_data);
    let mut buf: Vec<u8> = vec![0; 8192];
    assert_eq!(source.read(&mut buf), Ok(0));
    assert_eq!(source.current_size, total_data);
}

#[test]
fn elapsed_budget_signals_times_up() {
    // a zero-second budget has already elapsed at the first pull: the read
    // fails with the clean time's-up signal and the count stays put
    let total_data = 8192 * 4;
    let mut source = UploadData::new(total_data, 0);
    let mut buf: Vec<u8> = vec![0; 8192];
    assert_eq!(source.read(&mut buf), Err(UploadReadError::TimedOut));
    assert!(source.current_size < total_data);
    assert_eq!(source.current_size, 0);
}

#[test]
fn single_pull_never_exceeds_chunk_cap() {
    let total_data = 100_000;
    let mut source = UploadData::new(total_data, 60);
    let mut buf: Vec<u8> = vec![0; 50_000];
    let got = source.read(&mut buf).unwrap();
    assert_eq!(got, 8192);
    assert_eq!(source.current_size, 8192);
}

#[test]
fn filler_bytes_cycle_through_alphabet() {
    let mut source = UploadData::new(8192, 60);
    let mut buf: Vec<u8> = vec![0; 70];
    let got = source.read(&mut buf).unwrap();
    assert_eq!(got, 70);
    assert_eq!(buf[0], b'0');
    assert_eq!(buf[9], b'9');
    assert_eq!(buf[10], b'A');
    assert_eq!(buf[35], b'Z');
    assert_eq!(buf[36], b'a');
    assert_eq!(buf[61], b'z');
    assert_eq!(buf[62], b'0');
}
