//! The per-trial result record and its fixed-order row encoding.
//!
//! One record is appended per trial; the caller hands the full sequence,
//! behind a header row, to an external writer. The library's obligation is
//! the fixed column order and the exact text of every numeric cell.

use vstd::prelude::*;

verus! {

/// The character of one decimal digit.
pub open spec fn spec_digit_char(d: int) -> char {
    if d == 0 {
        '0'
    } else if d == 1 {
        '1'
    } else if d == 2 {
        '2'
    } else if d == 3 {
        '3'
    } else if d == 4 {
        '4'
    } else if d == 5 {
        '5'
    } else if d == 6 {
        '6'
    } else if d == 7 {
        '7'
    } else if d == 8 {
        '8'
    } else {
        '9'
    }
}

/// The canonical decimal spelling of a non-negative number: no sign, no
/// leading zero except for zero itself.
pub open spec fn dec_digits(n: int) -> Seq<char>
    decreases n,
{
    if n < 10 {
        seq![spec_digit_char(n)]
    } else {
        dec_digits(n / 10).push(spec_digit_char(n % 10))
    }
}

/// The spelling of a count of thousandths: the whole part, a point, and
/// exactly three fraction digits.
pub open spec fn milli_string(v: int) -> Seq<char> {
    dec_digits(v / 1000) + seq!['.'] + seq![
        spec_digit_char((v % 1000) / 100),
        spec_digit_char(((v % 1000) / 10) % 10),
        spec_digit_char((v % 1000) % 10),
    ]
}

/// The one-character string of digit `d`.
fn digit_str(d: u8) -> (r: &'static str)
    requires
        d < 10,
    ensures
        r@ =~= seq![spec_digit_char(d as int)],
{
    proof {
        reveal_strlit("0");
        reveal_strlit("1");
        reveal_strlit("2");
        reveal_strlit("3");
        reveal_strlit("4");
        reveal_strlit("5");
        reveal_strlit("6");
        reveal_strlit("7");
        reveal_strlit("8");
        reveal_strlit("9");
    }
    if d == 0 {
        "0"
    } else if d == 1 {
        "1"
    } else if d == 2 {
        "2"
    } else if d == 3 {
        "3"
    } else if d == 4 {
        "4"
    } else if d == 5 {
        "5"
    } else if d == 6 {
        "6"
    } else if d == 7 {
        "7"
    } else if d == 8 {
        "8"
    } else {
        "9"
    }
}

/// The canonical decimal spelling of `n`.
pub fn u64_to_string(n: u64) -> (r: String)
    ensures
        r@ == dec_digits(n as int),
    decreases n,
{
    if n < 10 {
        let r = String::from_str(digit_str(n as u8));
        proof {
            assert(r@ =~= dec_digits(n as int));
        }
        r
    } else {
        let mut r = u64_to_string(n / 10);
        r.append(digit_str((n % 10) as u8));
        proof {
            assert(r@ =~= dec_digits((n / 10) as int).push(spec_digit_char((n % 10) as int)));
        }
        r
    }
}

/// The spelling of `v` thousandths as a decimal with three fraction
/// digits, as a throughput cell is written.
pub fn milli_to_string(v: u64) -> (r: String)
    ensures
        r@ == milli_string(v as int),
{
    let mut r = u64_to_string(v / 1000);
    let f = v % 1000;
    r.append(".");
    r.append(digit_str((f / 100) as u8));
    r.append(digit_str(((f / 10) % 10) as u8));
    r.append(digit_str((f % 10) as u8));
    proof {
        reveal_strlit(".");
        assert(r@ =~= milli_string(v as int));
    }
    r
}

/// One row per trial: what each bandwidth test of the trial read and
/// wrote, when it ran, and at what speed. Speeds are held in thousandths
/// of a megabit per second; timestamps arrive from the caller as text.
pub struct TestRecord {
    pub test_number: u64,
    pub server_host: String,
    pub rx_start_ts: String,
    pub rx_bytes: u64,
    pub rx_millis: u64,
    pub rx_mbps: u64,
    pub rx_end_ts: String,
    pub tx_start_ts: String,
    pub tx_bytes: u64,
    pub tx_millis: u64,
    pub tx_mbps: u64,
    pub tx_end_ts: String,
}

impl TestRecord {
    /// The record as one row in the fixed column order: test number, host,
    /// then the download and upload halves, each as start, bytes, millis,
    /// speed, end. Every numeric cell is the canonical decimal spelling.
    pub fn to_row(&self) -> (row: Vec<String>)
        ensures
            row@.len() == 12,
            row@[0]@ == dec_digits(self.test_number as int),
            row@[1]@ == self.server_host@,
            row@[2]@ == self.rx_start_ts@,
            row@[3]@ == dec_digits(self.rx_bytes as int),
            row@[4]@ == dec_digits(self.rx_millis as int),
            row@[5]@ == milli_string(self.rx_mbps as int),
            row@[6]@ == self.rx_end_ts@,
            row@[7]@ == self.tx_start_ts@,
            row@[8]@ == dec_digits(self.tx_bytes as int),
            row@[9]@ == dec_digits(self.tx_millis as int),
            row@[10]@ == milli_string(self.tx_mbps as int),
            row@[11]@ == self.tx_end_ts@,
    {
        let mut row: Vec<String> = Vec::new();
        row.push(u64_to_string(self.test_number));
        row.push(self.server_host.clone());
        row.push(self.rx_start_ts.clone());
        row.push(u64_to_string(self.rx_bytes));
        row.push(u64_to_string(self.rx_millis));
        row.push(milli_to_string(self.rx_mbps));
        row.push(self.rx_end_ts.clone());
        row.push(self.tx_start_ts.clone());
        row.push(u64_to_string(self.tx_bytes));
        row.push(u64_to_string(self.tx_millis));
        row.push(milli_to_string(self.tx_mbps));
        row.push(self.tx_end_ts.clone());
        row
    }
}

/// The header row naming the twelve columns, in the order
/// [`TestRecord::to_row`] writes them.
pub fn header_row() -> (row: Vec<String>)
    ensures
        row@.len() == 12,
        row@[0]@ == "test_number"@,
        row@[1]@ == "server_url"@,
        row@[2]@ == "rx_start"@,
        row@[3]@ == "rx_total_bytes"@,
        row@[4]@ == "rx_total_millis"@,
        row@[5]@ == "rx_speed_mbps"@,
        row@[6]@ == "rx_end"@,
        row@[7]@ == "tx_start"@,
        row@[8]@ == "tx_total_bytes"@,
        row@[9]@ == "tx_total_millis"@,
        row@[10]@ == "tx_speed_mbps"@,
        row@[11]@ == "tx_end"@,
{
    let mut row: Vec<String> = Vec::new();
    row.push(String::from_str("test_number"));
    row.push(String::from_str("server_url"));
    row.push(String::from_str("rx_start"));
    row.push(String::from_str("rx_total_bytes"));
    row.push(String::from_str("rx_total_millis"));
    row.push(String::from_str("rx_speed_mbps"));
    row.push(String::from_str("rx_end"));
    row.push(String::from_str("tx_start"));
    row.push(String::from_str("tx_total_bytes"));
    row.push(String::from_str("tx_total_millis"));
    row.push(String::from_str("tx_speed_mbps"));
    row.push(String::from_str("tx_end"));
    row
}

} // verus!
