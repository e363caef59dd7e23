//! The two report layouts, and the formatting decisions they make on values.
use vstd::prelude::*;

verus! {

/// The decimal digits of `n`, as ASCII.
pub open spec fn decimal(n: nat) -> Seq<u8>
    decreases n,
{
    if n < 10 {
        seq![(48 + n) as u8]
    } else {
        decimal(n / 10).push((48 + n % 10) as u8)
    }
}

/// `n` in decimal, with a leading `-` when negative.
pub open spec fn signed_decimal(n: int) -> Seq<u8> {
    if n < 0 {
        seq![45u8] + decimal((-n) as nat)
    } else {
        decimal(n as nat)
    }
}

/// `s` with an apostrophe put before every group of three characters,
/// counted from the right, that has a character before it.
pub open spec fn grouped(s: Seq<u8>) -> Seq<u8>
    decreases s.len(),
{
    if s.len() <= 3 {
        s
    } else {
        grouped(s.subrange(0, s.len() - 3)).push(39u8) + s.subrange(s.len() - 3, s.len() as int)
    }
}

proof fn lemma_decimal_ascii(n: nat)
    ensures
        forall|i: int| 0 <= i < decimal(n).len() ==> 48 <= #[trigger] decimal(n)[i] <= 57,
    decreases n,
{
    if n >= 10 {
        lemma_decimal_ascii(n / 10);
        let p = decimal(n / 10);
        assert forall|i: int| 0 <= i < decimal(n).len() implies 48 <= #[trigger] decimal(n)[i]
            <= 57 by {
            if i < p.len() {
                assert(decimal(n)[i] == p[i]);
            }
        }
    }
}

proof fn lemma_grouped_ascii(s: Seq<u8>)
    requires
        forall|i: int| 0 <= i < s.len() ==> #[trigger] s[i] < 128,
    ensures
        forall|i: int| 0 <= i < grouped(s).len() ==> #[trigger] grouped(s)[i] < 128,
    decreases s.len(),
{
    if s.len() > 3 {
        let head = s.subrange(0, s.len() - 3);
        lemma_grouped_ascii(head);
        let g = grouped(head).push(39u8);
        let t = s.subrange(s.len() - 3, s.len() as int);
        assert forall|i: int| 0 <= i < grouped(s).len() implies #[trigger] grouped(s)[i] < 128 by {
            if i < g.len() {
                assert(grouped(s)[i] == g[i]);
                if i < grouped(head).len() {
                    assert(g[i] == grouped(head)[i]);
                }
            } else {
                assert(grouped(s)[i] == t[i - g.len()]);
            }
        }
    }
}

fn decimal_digits(n: u64) -> (r: Vec<u8>)
    ensures
        r@ == decimal(n as nat),
    decreases n,
{
    if n < 10 {
        let mut r: Vec<u8> = Vec::new();
        r.push(48 + n as u8);
        proof {
            assert(r@ =~= decimal(n as nat));
        }
        r
    } else {
        let mut r = decimal_digits(n / 10);
        r.push(48 + (n % 10) as u8);
        r
    }
}

fn group_prefix(s: &Vec<u8>, end: usize) -> (r: Vec<u8>)
    requires
        end <= s@.len(),
    ensures
        r@ == grouped(s@.subrange(0, end as int)),
    decreases end,
{
    if end <= 3 {
        let mut r: Vec<u8> = Vec::new();
        let mut i: usize = 0;
        while i < end
            invariant
                i <= end <= s@.len(),
                r@ == s@.subrange(0, i as int),
            decreases end - i,
        {
            r.push(s[i]);
            i = i + 1;
            proof {
                assert(r@ =~= s@.subrange(0, i as int));
            }
        }
        r
    } else {
        let mut r = group_prefix(s, end - 3);
        r.push(39);
        r.push(s[end - 3]);
        r.push(s[end - 2]);
        r.push(s[end - 1]);
        proof {
            let p = s@.subrange(0, end as int);
            assert(p.subrange(0, p.len() - 3) =~= s@.subrange(0, end - 3));
            assert(r@ =~= grouped(p));
        }
        r
    }
}

/// Relies on `String::from_utf8`: ASCII bytes are valid UTF-8, and each
/// byte becomes the character with the same code.
#[verifier::external_body]
fn ascii_string(bytes: Vec<u8>) -> (r: String)
    requires
        forall|i: int| 0 <= i < bytes@.len() ==> #[trigger] bytes@[i] < 128,
    ensures
        r@ == bytes@.map_values(|b: u8| b as char),
{
    match String::from_utf8(bytes) {
        Ok(s) => s,
        Err(_) => String::new(),
    }
}

/// The human-readable report.
pub struct StdoutPrinter;

impl StdoutPrinter {
    /// `n` in decimal with its digits grouped by three, apostrophes between
    /// the groups (`1'234'567`).
    pub fn group_digits(n: i64) -> (r: String)
        ensures
            r@ == grouped(signed_decimal(n as int)).map_values(|b: u8| b as char),
    {
        let magnitude: u64 = if n < 0 {
            (-(n as i128)) as u64
        } else {
            n as u64
        };
        let digits = decimal_digits(magnitude);
        let mut text: Vec<u8> = Vec::new();
        if n < 0 {
            text.push(45);
        }
        let mut i: usize = 0;
        while i < digits.len()
            invariant
                i <= digits@.len(),
                text@ == (if n < 0 {
                    seq![45u8]
                } else {
                    Seq::<u8>::empty()
                }) + digits@.subrange(0, i as int),
            decreases digits@.len() - i,
        {
            text.push(digits[i]);
            i = i + 1;
            proof {
                assert(digits@.subrange(0, i as int) =~= digits@.subrange(0, i - 1).push(
                    digits@[i - 1],
                ));
            }
        }
        proof {
            assert(digits@.subrange(0, i as int) =~= digits@);
            assert(text@ =~= signed_decimal(n as int));
            lemma_decimal_ascii(magnitude as nat);
            assert forall|k: int| 0 <= k < text@.len() implies #[trigger] text@[k] < 128 by {
                if n < 0 && k > 0 {
                    assert(text@[k] == digits@[k - 1]);
                } else if n >= 0 {
                    assert(text@[k] == digits@[k]);
                }
            }
        }
        let g = group_prefix(&text, text.len());
        proof {
            assert(text@.subrange(0, text@.len() as int) =~= text@);
            lemma_grouped_ascii(text@);
        }
        ascii_string(g)
    }
}

/// The comma-separated report.
pub struct CsvPrinter;

impl CsvPrinter {
    /// The node column: the node id, or 0 on a row that sums up all nodes.
    pub fn node_column(node: Option<u8>) -> (r: u8)
        ensures
            r == match node {
                Some(n) => n,
                None => 0,
            },
    {
        match node {
            Some(n) => n,
            None => 0,
        }
    }
}

} // verus!
