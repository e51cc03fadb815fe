//! The whitelist text formats and the target pool built from them.
//!
//! A whitelist is tried first as a JSON array of address strings; if that
//! parse fails, it is read one entry per line, trimming whitespace and
//! skipping blank lines. In either format an entry that is not a valid
//! address is silently dropped; the surviving addresses keep their order.

use vstd::prelude::*;
use crate::address::Address;
use crate::address::parse_address;
use crate::address::spec_parse_address;

verus! {

/// What `serde_json` reads a whitelist as, when it is JSON at all: the
/// array of strings, each as its bytes, in order. The result is a function
/// of the input bytes alone.
pub uninterp spec fn json_string_array(s: Seq<u8>) -> Option<Seq<Seq<u8>>>;

/// Relies on serde_json::from_slice::<Vec<String>>: parses the input as a
/// JSON array of strings, deterministically in the input bytes.
#[verifier::external_body]
fn parse_json_strings(content: &[u8]) -> (r: Option<Vec<Vec<u8>>>)
    ensures
        match r {
            Some(v) => json_string_array(content@) == Some(v.deep_view()),
            None => json_string_array(content@) is None,
        },
{
    match serde_json::from_slice::<Vec<String>>(content) {
        Ok(v) => Some(v.into_iter().map(|s| s.into_bytes()).collect()),
        Err(_) => None,
    }
}

/// The pool built from a list of entries: each entry that parses as an
/// address contributes it, in order; the rest are dropped.
pub open spec fn spec_pool_from_entries(entries: Seq<Seq<u8>>) -> Seq<Address>
    decreases entries.len(),
{
    if entries.len() == 0 {
        Seq::<Address>::empty()
    } else {
        spec_pool_from_entries(entries.drop_last()) + (match spec_parse_address(
            entries.last(),
        ) {
            Some(a) => seq![a],
            None => Seq::<Address>::empty(),
        })
    }
}

/// Builds the pool from parsed whitelist entries, dropping entries that
/// are not addresses and keeping the order of the rest.
pub fn pool_from_entries(entries: &Vec<Vec<u8>>) -> (pool: Vec<Address>)
    ensures
        pool@ == spec_pool_from_entries(entries.deep_view()),
{
    let mut pool: Vec<Address> = Vec::new();
    let mut i: usize = 0;
    while i < entries.len()
        invariant
            i <= entries@.len(),
            entries.deep_view().len() == entries@.len(),
            forall|k: int| 0 <= k < entries@.len() ==> entries.deep_view()[k] == entries@[k]@,
            pool@ == spec_pool_from_entries(entries.deep_view().take(i as int)),
        decreases entries@.len() - i,
    {
        proof {
            assert(entries.deep_view().take(i + 1).drop_last() =~= entries.deep_view().take(
                i as int,
            ));
            assert(entries.deep_view().take(i + 1).last() == entries@[i as int]@);
        }
        match parse_address(entries[i].as_slice()) {
            Some(a) => {
                pool.push(a);
            },
            None => {},
        }
        i = i + 1;
    }
    proof {
        assert(entries.deep_view().take(entries@.len() as int) =~= entries.deep_view());
    }
    pool
}

/// An entry that does not parse as an address is dropped without affecting
/// the remaining entries or their order: inserting such an entry anywhere
/// in a whitelist leaves the resulting pool unchanged.
pub proof fn lemma_bad_entry_dropped(entries: Seq<Seq<u8>>, k: int, bad: Seq<u8>)
    requires
        0 <= k <= entries.len(),
        spec_parse_address(bad) is None,
    ensures
        spec_pool_from_entries(entries.insert(k, bad)) == spec_pool_from_entries(entries),
    decreases entries.len(),
{
    let inserted = entries.insert(k, bad);
    if k == entries.len() {
        assert(inserted.drop_last() =~= entries);
        assert(inserted.last() == bad);
    } else {
        assert(inserted.last() == entries.last());
        assert(inserted.drop_last() =~= entries.drop_last().insert(k, bad));
        lemma_bad_entry_dropped(entries.drop_last(), k, bad);
    }
}

/// ASCII whitespace as trimmed from a whitelist line.
pub open spec fn is_space(b: u8) -> bool {
    b == 0x20 || b == 0x09 || b == 0x0d || b == 0x0b || b == 0x0c
}

/// Index of the first byte from `i` on that ends the line: the next
/// newline, or the end of the text.
pub open spec fn line_end(s: Seq<u8>, i: int) -> int
    decreases s.len() - i,
{
    if i < 0 || i >= s.len() || s[i] == 0x0a {
        i
    } else {
        line_end(s, i + 1)
    }
}

/// First index in `i..j` holding more than whitespace.
pub open spec fn trim_front(s: Seq<u8>, i: int, j: int) -> int
    decreases j - i,
{
    if i < 0 || i >= j || i >= s.len() || !is_space(s[i]) {
        i
    } else {
        trim_front(s, i + 1, j)
    }
}

/// Index just past the last byte in `i..j` holding more than whitespace.
pub open spec fn trim_back(s: Seq<u8>, i: int, j: int) -> int
    decreases j - i,
{
    if j <= i || j > s.len() || !is_space(s[j - 1]) {
        j
    } else {
        trim_back(s, i, j - 1)
    }
}

/// The pool built from line-format text starting at `i`: one entry per
/// line, whitespace trimmed, blank lines skipped, entries that are not
/// addresses dropped.
pub open spec fn spec_pool_from_lines(s: Seq<u8>, i: int) -> Seq<Address>
    decreases s.len() + 1 - i,
    via spec_pool_from_lines_decreases
{
    if i < 0 || i >= s.len() {
        Seq::<Address>::empty()
    } else {
        let e = line_end(s, i);
        let a = trim_front(s, i, e);
        let b = trim_back(s, a, e);
        let entry = s.subrange(a, b);
        (if a < b {
            match spec_parse_address(entry) {
                Some(addr) => seq![addr],
                None => Seq::<Address>::empty(),
            }
        } else {
            Seq::<Address>::empty()
        }) + spec_pool_from_lines(s, e + 1)
    }
}

#[via_fn]
proof fn spec_pool_from_lines_decreases(s: Seq<u8>, i: int) {
    if 0 <= i < s.len() {
        lemma_line_end_bounds(s, i);
    }
}

/// The line end lies between `i` and the end of the text.
pub proof fn lemma_line_end_bounds(s: Seq<u8>, i: int)
    requires
        0 <= i <= s.len(),
    ensures
        i <= line_end(s, i) <= s.len(),
    decreases s.len() - i,
{
    if i < s.len() && s[i] != 0x0a {
        lemma_line_end_bounds(s, i + 1);
    }
}

fn scan_line_end(s: &[u8], i: usize) -> (e: usize)
    requires
        i <= s@.len(),
    ensures
        e == line_end(s@, i as int),
        i <= e <= s@.len(),
{
    let len: usize = s.len();
    let mut e: usize = i;
    while e < len && s[e] != 0x0a
        invariant
            i <= e <= len,
            len == s@.len(),
            line_end(s@, i as int) == line_end(s@, e as int),
        decreases len - e,
    {
        e = e + 1;
    }
    e
}

fn is_space_byte(b: u8) -> (r: bool)
    ensures
        r == is_space(b),
{
    b == 0x20 || b == 0x09 || b == 0x0d || b == 0x0b || b == 0x0c
}

fn scan_trim_front(s: &[u8], i: usize, j: usize) -> (a: usize)
    requires
        i <= j <= s@.len(),
    ensures
        a == trim_front(s@, i as int, j as int),
        i <= a <= j,
{
    let mut a: usize = i;
    while a < j && is_space_byte(s[a])
        invariant
            i <= a <= j <= s@.len(),
            trim_front(s@, i as int, j as int) == trim_front(s@, a as int, j as int),
        decreases j - a,
    {
        a = a + 1;
    }
    a
}

fn scan_trim_back(s: &[u8], i: usize, j: usize) -> (b: usize)
    requires
        i <= j <= s@.len(),
    ensures
        b == trim_back(s@, i as int, j as int),
        i <= b <= j,
{
    let mut b: usize = j;
    while b > i && is_space_byte(s[b - 1])
        invariant
            i <= b <= j <= s@.len(),
            trim_back(s@, i as int, j as int) == trim_back(s@, i as int, b as int),
        decreases b,
    {
        b = b - 1;
    }
    b
}

/// Builds the pool from line-format text.
pub fn pool_from_lines(content: &[u8]) -> (pool: Vec<Address>)
    requires
        content@.len() < usize::MAX,
    ensures
        pool@ == spec_pool_from_lines(content@, 0),
{
    let len: usize = content.len();
    let mut pool: Vec<Address> = Vec::new();
    let mut i: usize = 0;
    while i < len
        invariant
            len == content@.len(),
            len < usize::MAX,
            i <= len + 1,
            spec_pool_from_lines(content@, 0) == pool@ + spec_pool_from_lines(
                content@,
                i as int,
            ),
        decreases len + 1 - i,
    {
        let e = scan_line_end(content, i);
        let a = scan_trim_front(content, i, e);
        let b = scan_trim_back(content, a, e);
        if a < b {
            let entry = &content[a..b];
            match parse_address(entry) {
                Some(addr) => {
                    pool.push(addr);
                },
                None => {},
            }
        }
        i = e + 1;
    }
    proof {
        assert(spec_pool_from_lines(content@, i as int) =~= Seq::<Address>::empty());
        assert(pool@ =~= pool@ + Seq::<Address>::empty());
    }
    pool
}

/// Loads the target pool from whitelist text: a JSON array of address
/// strings when the text parses as one, else one entry per line. Entries
/// that are not addresses are dropped; order is kept. (An empty pool is the
/// caller's fatal startup condition, not an error here.)
pub fn parse_whitelist(content: &[u8]) -> (pool: Vec<Address>)
    requires
        content@.len() < usize::MAX,
    ensures
        match json_string_array(content@) {
            Some(entries) => pool@ == spec_pool_from_entries(entries),
            None => pool@ == spec_pool_from_lines(content@, 0),
        },
{
    match parse_json_strings(content) {
        Some(entries) => pool_from_entries(&entries),
        None => pool_from_lines(content),
    }
}

} // verus!
