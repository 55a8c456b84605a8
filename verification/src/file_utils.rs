//! The output file name rule for the record writer.

use vstd::prelude::*;

verus! {

/// The name the records are written under: the given name where it already
/// ends in `.csv`, otherwise the name with `.csv` appended.
pub open spec fn csv_file_name(s: Seq<char>) -> Seq<char> {
    if s.len() >= 4 && s.subrange(s.len() - 4, s.len() as int) == ".csv"@ {
        s
    } else {
        s + ".csv"@
    }
}

/// The output file name with its `.csv` extension, added where missing.
pub fn get_full_file_name(file_name: &str) -> (r: String)
    ensures
        r@ == csv_file_name(file_name@),
{
    proof {
        reveal_strlit(".csv");
    }
    let len = file_name.unicode_len();
    if len >= 4 {
        let ghost tail = file_name@.subrange(file_name@.len() - 4, file_name@.len() as int);
        let c0 = file_name.get_char(len - 4);
        let c1 = file_name.get_char(len - 3);
        let c2 = file_name.get_char(len - 2);
        let c3 = file_name.get_char(len - 1);
        if c0 == '.' && c1 == 'c' && c2 == 's' && c3 == 'v' {
            proof {
                assert(tail =~= ".csv"@);
            }
            return String::from_str(file_name);
        }
        proof {
            assert(tail[0] == c0 && tail[1] == c1 && tail[2] == c2 && tail[3] == c3);
            assert(tail != ".csv"@);
        }
    }
    let base = String::from_str(file_name);
    base.concat(".csv")
}

} // verus!
