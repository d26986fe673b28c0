//! Character-level string helpers: equality, prefix tests, lexicographic
//! order, and removal of trailing whitespace.

use vstd::prelude::*;

verus! {

/// Whether `c` counts as whitespace when a line's trailing whitespace is
/// removed; the meaning of `char::is_whitespace`.
pub uninterp spec fn whitespace_char(c: char) -> bool;

/// Relies on char::is_whitespace: whether the character has the Unicode
/// `White_Space` property, a function of the character alone.
#[verifier::external_body]
fn char_is_whitespace(c: char) -> (r: bool)
    ensures
        r == whitespace_char(c),
{
    c.is_whitespace()
}

/// `s` with every trailing whitespace character removed.
pub open spec fn trim_end_spec(s: Seq<char>) -> Seq<char>
    decreases s.len(),
{
    if s.len() == 0 {
        s
    } else if whitespace_char(s[s.len() - 1]) {
        trim_end_spec(s.drop_last())
    } else {
        s
    }
}

/// A trimmed string is a prefix of the original and does not end in
/// whitespace.
pub proof fn lemma_trim_end_prefix(s: Seq<char>)
    ensures
        trim_end_spec(s).len() <= s.len(),
        trim_end_spec(s) == s.subrange(0, trim_end_spec(s).len() as int),
        trim_end_spec(s).len() > 0 ==> !whitespace_char(trim_end_spec(s).last()),
    decreases s.len(),
{
    if s.len() == 0 {
        assert(trim_end_spec(s) =~= s.subrange(0, 0));
    } else if whitespace_char(s[s.len() - 1]) {
        lemma_trim_end_prefix(s.drop_last());
        assert(s.drop_last() =~= s.subrange(0, s.len() - 1));
        assert(trim_end_spec(s) =~= s.subrange(0, trim_end_spec(s).len() as int));
    } else {
        assert(trim_end_spec(s) =~= s.subrange(0, s.len() as int));
    }
}

/// Removing trailing whitespace twice is the same as removing it once.
pub proof fn lemma_trim_end_idempotent(s: Seq<char>)
    ensures
        trim_end_spec(trim_end_spec(s)) == trim_end_spec(s),
{
    lemma_trim_end_prefix(s);
}

/// The index at which the trailing whitespace of `s` begins.
fn trim_end_index(s: &str) -> (end: usize)
    ensures
        end <= s@.len(),
        trim_end_spec(s@) == s@.subrange(0, end as int),
{
    let len: usize = s.unicode_len();
    let mut end: usize = len;
    proof {
        assert(s@.subrange(0, len as int) =~= s@);
    }
    loop
        invariant
            end <= len,
            len == s@.len(),
            trim_end_spec(s@) == trim_end_spec(s@.subrange(0, end as int)),
        decreases end,
    {
        if end == 0 {
            proof {
                assert(s@.subrange(0, 0).len() == 0);
            }
            return 0;
        }
        let c = s.get_char(end - 1);
        if char_is_whitespace(c) {
            proof {
                let cur = s@.subrange(0, end as int);
                assert(cur.drop_last() =~= s@.subrange(0, end - 1));
            }
            end = end - 1;
        } else {
            proof {
                let cur = s@.subrange(0, end as int);
                assert(trim_end_spec(cur) == cur);
            }
            return end;
        }
    }
}

/// Remove the trailing whitespace of `s`.
pub fn trim_end(s: &str) -> (r: String)
    ensures
        r@ == trim_end_spec(s@),
{
    let end = trim_end_index(s);
    let t = s.substring_char(0, end);
    t.to_owned()
}

/// `s` with every leading whitespace character removed.
pub open spec fn trim_start_spec(s: Seq<char>) -> Seq<char>
    decreases s.len(),
{
    if s.len() == 0 {
        s
    } else if whitespace_char(s[0]) {
        trim_start_spec(s.drop_first())
    } else {
        s
    }
}

/// `s` with every leading and every trailing whitespace character removed.
pub open spec fn trim_spec(s: Seq<char>) -> Seq<char> {
    trim_start_spec(trim_end_spec(s))
}

/// Remove the leading and the trailing whitespace of `s`.
pub fn trim(s: &str) -> (r: String)
    ensures
        r@ == trim_spec(s@),
{
    let len: usize = s.unicode_len();
    let end = trim_end_index(s);
    let mut start: usize = 0;
    while start < end
        invariant
            start <= end,
            end <= len,
            len == s@.len(),
            trim_end_spec(s@) == s@.subrange(0, end as int),
            trim_start_spec(s@.subrange(0, end as int)) == trim_start_spec(
                s@.subrange(start as int, end as int),
            ),
        decreases end - start,
    {
        let c = s.get_char(start);
        if char_is_whitespace(c) {
            proof {
                let cur = s@.subrange(start as int, end as int);
                assert(cur[0] == s@[start as int]);
                assert(cur.drop_first() =~= s@.subrange(start + 1, end as int));
            }
            start = start + 1;
        } else {
            proof {
                let cur = s@.subrange(start as int, end as int);
                assert(cur[0] == s@[start as int]);
                assert(trim_start_spec(cur) == cur);
            }
            let t = s.substring_char(start, end);
            return t.to_owned();
        }
    }
    proof {
        assert(s@.subrange(end as int, end as int).len() == 0);
        assert(trim_spec(s@) =~= Seq::<char>::empty());
    }
    String::new()
}

/// Whether two strings hold the same characters.
pub fn str_eq(a: &str, b: &str) -> (r: bool)
    ensures
        r == (a@ == b@),
{
    let sa: String = a.to_owned();
    let sb: String = b.to_owned();
    sa == sb
}

/// Whether `s` begins with `prefix`.
pub fn str_starts_with(s: &str, prefix: &str) -> (r: bool)
    ensures
        r == (s@.len() >= prefix@.len() && s@.subrange(0, prefix@.len() as int) == prefix@),
{
    let n: usize = prefix.unicode_len();
    let m: usize = s.unicode_len();
    if m < n {
        return false;
    }
    let head = s.substring_char(0, n);
    str_eq(head, prefix)
}

/// Lexicographic order on character sequences, by Unicode scalar value; a
/// proper prefix comes first.
pub open spec fn seq_char_le(a: Seq<char>, b: Seq<char>) -> bool
    decreases a.len(),
{
    if a.len() == 0 {
        true
    } else if b.len() == 0 {
        false
    } else if (a[0] as u32) < (b[0] as u32) {
        true
    } else if (b[0] as u32) < (a[0] as u32) {
        false
    } else {
        seq_char_le(a.drop_first(), b.drop_first())
    }
}

/// Whether `a` comes no later than `b` in lexicographic order.
pub fn str_le(a: &str, b: &str) -> (r: bool)
    ensures
        r == seq_char_le(a@, b@),
{
    let an: usize = a.unicode_len();
    let bn: usize = b.unicode_len();
    let mut i: usize = 0;
    proof {
        assert(a@.skip(0) =~= a@);
        assert(b@.skip(0) =~= b@);
    }
    loop
        invariant
            i <= an,
            i <= bn,
            an == a@.len(),
            bn == b@.len(),
            seq_char_le(a@, b@) == seq_char_le(a@.skip(i as int), b@.skip(i as int)),
        decreases an - i,
    {
        if i == an {
            proof {
                assert(a@.skip(i as int).len() == 0);
            }
            return true;
        }
        if i == bn {
            proof {
                assert(b@.skip(i as int).len() == 0);
                assert(a@.skip(i as int).len() > 0);
            }
            return false;
        }
        let ca = a.get_char(i) as u32;
        let cb = b.get_char(i) as u32;
        proof {
            let ra = a@.skip(i as int);
            let rb = b@.skip(i as int);
            assert(ra[0] == a@[i as int]);
            assert(rb[0] == b@[i as int]);
            assert(ra.drop_first() =~= a@.skip(i + 1));
            assert(rb.drop_first() =~= b@.skip(i + 1));
        }
        if ca < cb {
            return true;
        }
        if cb < ca {
            return false;
        }
        i = i + 1;
    }
}

/// The lexicographic order is total.
pub proof fn lemma_seq_char_le_total(a: Seq<char>, b: Seq<char>)
    ensures
        seq_char_le(a, b) || seq_char_le(b, a),
    decreases a.len(),
{
    if a.len() == 0 || b.len() == 0 {
    } else if (a[0] as u32) < (b[0] as u32) || (b[0] as u32) < (a[0] as u32) {
    } else {
        lemma_seq_char_le_total(a.drop_first(), b.drop_first());
    }
}

/// The lexicographic order is transitive.
pub proof fn lemma_seq_char_le_trans(a: Seq<char>, b: Seq<char>, c: Seq<char>)
    requires
        seq_char_le(a, b),
        seq_char_le(b, c),
    ensures
        seq_char_le(a, c),
    decreases a.len(),
{
    if a.len() == 0 || b.len() == 0 || c.len() == 0 {
    } else if (a[0] as u32) == (b[0] as u32) && (b[0] as u32) == (c[0] as u32) {
        lemma_seq_char_le_trans(a.drop_first(), b.drop_first(), c.drop_first());
    }
}

} // verus!
