use crate::error::StorageError;
use crate::ident::{hyphenated, id_text};
use crate::types::FileMetadata;
use vstd::prelude::*;

verus! {

/// The decimal digit for `d` < 10.
pub open spec fn digit_char(d: nat) -> char {
    if d == 0 {
        '0'
    } else if d == 1 {
        '1'
    } else if d == 2 {
        '2'
    } else if d == 3 {
        '3'
    } else if d == 4 {
        '4'
    } else if d == 5 {
        '5'
    } else if d == 6 {
        '6'
    } else if d == 7 {
        '7'
    } else if d == 8 {
        '8'
    } else {
        '9'
    }
}

/// `n` written in decimal, without leading zeros.
pub open spec fn decimal(n: nat) -> Seq<char>
    decreases n,
{
    if n < 10 {
        seq![digit_char(n)]
    } else {
        decimal(n / 10) + seq![digit_char(n % 10)]
    }
}

fn digit_text(d: u128) -> (r: &'static str)
    requires
        d < 10,
    ensures
        r@ == seq![digit_char(d as nat)],
{
    proof {
        reveal_strlit("0");
        reveal_strlit("1");
        reveal_strlit("2");
        reveal_strlit("3");
        reveal_strlit("4");
        reveal_strlit("5");
        reveal_strlit("6");
        reveal_strlit("7");
        reveal_strlit("8");
        reveal_strlit("9");
    }
    if d == 0 {
        "0"
    } else if d == 1 {
        "1"
    } else if d == 2 {
        "2"
    } else if d == 3 {
        "3"
    } else if d == 4 {
        "4"
    } else if d == 5 {
        "5"
    } else if d == 6 {
        "6"
    } else if d == 7 {
        "7"
    } else if d == 8 {
        "8"
    } else {
        "9"
    }
}

/// `n` in decimal.
pub fn decimal_text(n: u128) -> (r: String)
    ensures
        r@ == decimal(n as nat),
    decreases n,
{
    if n < 10 {
        String::from_str(digit_text(n))
    } else {
        let mut s = decimal_text(n / 10);
        s.append(digit_text(n % 10));
        s
    }
}

/// The sum of the sizes, where every chunk is present.
pub open spec fn sum_sizes(sizes: Seq<Option<u64>>) -> nat
    decreases sizes.len(),
{
    if sizes.len() == 0 {
        0
    } else {
        sum_sizes(sizes.drop_last()) + match sizes.last() {
            Some(n) => n as nat,
            None => 0,
        }
    }
}

/// The position of the first missing chunk, or -1 where none is missing.
pub open spec fn first_missing(sizes: Seq<Option<u64>>) -> int
    decreases sizes.len(),
{
    if sizes.len() == 0 {
        -1
    } else if first_missing(sizes.drop_last()) >= 0 {
        first_missing(sizes.drop_last())
    } else if sizes.last() is None {
        sizes.len() - 1
    } else {
        -1
    }
}

/// Checks a record against the chunk files on disk.
pub struct ValidationManager {
    base_path: String,
}

impl ValidationManager {
    pub closed spec fn base_path_spec(&self) -> Seq<char> {
        self.base_path@
    }

    pub fn new(base_path: &str) -> (r: Self)
        ensures
            r.base_path_spec() == base_path@,
    {
        ValidationManager { base_path: String::from_str(base_path) }
    }

    pub fn base_path(&self) -> (r: String)
        ensures
            r@ == self.base_path_spec(),
    {
        self.base_path.clone()
    }

    /// Checks that every chunk of the record exists and that their sizes add
    /// up to the record's size. `chunk_sizes[i]` is the size of the file of
    /// chunk `i`, or `None` where that file is missing.
    pub fn validate_file(metadata: &FileMetadata, chunk_sizes: &Vec<Option<u64>>) -> (r: Result<
        (),
        StorageError,
    >)
        requires
            chunk_sizes@.len() == metadata.chunk_ids@.len(),
        ensures
            first_missing(chunk_sizes@) >= 0 ==> (r matches Err(StorageError::Storage(m)) && m@
                == "chunk "@ + hyphenated(metadata.chunk_ids@[first_missing(chunk_sizes@)].0)
                + " is missing"@),
            first_missing(chunk_sizes@) < 0 && sum_sizes(chunk_sizes@) != metadata.size ==> (
            r matches Err(StorageError::Storage(m)) && m@ == "File size mismatch. Expected: "@
                + decimal(metadata.size as nat) + ", Got: "@ + decimal(sum_sizes(chunk_sizes@))),
            first_missing(chunk_sizes@) < 0 && sum_sizes(chunk_sizes@) == metadata.size ==> r is Ok,
    {
        let mut i: usize = 0;
        let mut total: u128 = 0;
        while i < chunk_sizes.len()
            invariant
                i <= chunk_sizes@.len(),
                chunk_sizes@.len() == metadata.chunk_ids@.len(),
                first_missing(chunk_sizes@.subrange(0, i as int)) < 0,
                total == sum_sizes(chunk_sizes@.subrange(0, i as int)),
                total <= i * 0x1_0000_0000_0000_0000,
            decreases chunk_sizes@.len() - i,
        {
            let ghost s = chunk_sizes@.subrange(0, i + 1);
            proof {
                assert(s.drop_last() == chunk_sizes@.subrange(0, i as int));
            }
            match chunk_sizes[i] {
                None => {
                    proof {
                        lemma_first_missing_prefix(chunk_sizes@, i + 1);
                    }
                    let mut m = String::from_str("chunk ");
                    m.append(id_text(metadata.chunk_ids[i].0).as_str());
                    m.append(" is missing");
                    return Err(StorageError::Storage(m));
                },
                Some(n) => {
                    total = total + n as u128;
                },
            }
            i = i + 1;
        }
        proof {
            assert(chunk_sizes@.subrange(0, chunk_sizes@.len() as int) == chunk_sizes@);
        }
        if total != metadata.size as u128 {
            let mut m = String::from_str("File size mismatch. Expected: ");
            m.append(decimal_text(metadata.size as u128).as_str());
            m.append(", Got: ");
            m.append(decimal_text(total).as_str());
            return Err(StorageError::Storage(m));
        }
        Ok(())
    }
}

proof fn lemma_first_missing_prefix(sizes: Seq<Option<u64>>, n: int)
    requires
        0 <= n <= sizes.len(),
        first_missing(sizes.subrange(0, n)) >= 0,
    ensures
        first_missing(sizes) == first_missing(sizes.subrange(0, n)),
    decreases sizes.len() - n,
{
    if n < sizes.len() {
        let s = sizes.subrange(0, n + 1);
        assert(s.drop_last() == sizes.subrange(0, n));
        lemma_first_missing_prefix(sizes, n + 1);
    } else {
        assert(sizes.subrange(0, n) == sizes);
    }
}

} // verus!
