//! A counting table keyed by text, kept in `String` order with each key once:
//! the shape of the per-extension, per-language and per-directory totals.
use vstd::prelude::*;

use crate::text::{self, str_le};

verus! {

/// One row of a counting table.
#[derive(Debug, Clone, PartialEq, Eq)]
pub struct Tally {
    pub key: String,
    pub files: usize,
    pub bytes: u64,
    pub lines: u64,
}

/// Keys strictly ascend in `String` order, so each occurs once.
pub open spec fn keys_sorted(t: Seq<Tally>) -> bool {
    forall|i: int, j: int|
        0 <= i < j < t.len() ==> str_le(#[trigger] t[i].key@, #[trigger] t[j].key@) && t[i].key@
            != t[j].key@
}

pub open spec fn has_key(t: Seq<Tally>, x: Seq<char>) -> bool {
    exists|i: int| 0 <= i < t.len() && #[trigger] t[i].key@ == x
}

/// Files counted under key `x`.
pub open spec fn files_at(t: Seq<Tally>, x: Seq<char>) -> nat
    decreases t.len(),
{
    if t.len() == 0 {
        0
    } else {
        files_at(t.drop_last(), x) + if t.last().key@ == x {
            t.last().files as nat
        } else {
            0
        }
    }
}

/// Bytes counted under key `x`.
pub open spec fn bytes_at(t: Seq<Tally>, x: Seq<char>) -> nat
    decreases t.len(),
{
    if t.len() == 0 {
        0
    } else {
        bytes_at(t.drop_last(), x) + if t.last().key@ == x {
            t.last().bytes as nat
        } else {
            0
        }
    }
}

/// Lines counted under key `x`.
pub open spec fn lines_at(t: Seq<Tally>, x: Seq<char>) -> nat
    decreases t.len(),
{
    if t.len() == 0 {
        0
    } else {
        lines_at(t.drop_last(), x) + if t.last().key@ == x {
            t.last().lines as nat
        } else {
            0
        }
    }
}

/// Files over the whole table.
pub open spec fn total_files(t: Seq<Tally>) -> nat
    decreases t.len(),
{
    if t.len() == 0 {
        0
    } else {
        total_files(t.drop_last()) + t.last().files as nat
    }
}

/// Bytes over the whole table.
pub open spec fn total_bytes(t: Seq<Tally>) -> nat
    decreases t.len(),
{
    if t.len() == 0 {
        0
    } else {
        total_bytes(t.drop_last()) + t.last().bytes as nat
    }
}

/// Lines over the whole table.
pub open spec fn total_lines(t: Seq<Tally>) -> nat
    decreases t.len(),
{
    if t.len() == 0 {
        0
    } else {
        total_lines(t.drop_last()) + t.last().lines as nat
    }
}

/// In a table with unique keys, a key's totals are its row's.
pub proof fn lemma_row(t: Seq<Tally>, i: int)
    requires
        keys_sorted(t),
        0 <= i < t.len(),
    ensures
        files_at(t, t[i].key@) == t[i].files,
        bytes_at(t, t[i].key@) == t[i].bytes,
        lines_at(t, t[i].key@) == t[i].lines,
    decreases t.len(),
{
    if i < t.len() - 1 {
        lemma_row(t.drop_last(), i);
        assert(t.drop_last()[i] == t[i]);
        assert(t.last().key@ != t[i].key@);
    } else {
        lemma_absent(t.drop_last(), t[i].key@);
    }
}

/// A key the table lacks has zero totals.
pub proof fn lemma_absent(t: Seq<Tally>, x: Seq<char>)
    requires
        !has_key(t, x),
    ensures
        files_at(t, x) == 0,
        bytes_at(t, x) == 0,
        lines_at(t, x) == 0,
    decreases t.len(),
{
    if t.len() > 0 {
        assert(!has_key(t.drop_last(), x)) by {
            if has_key(t.drop_last(), x) {
                let i = choose|i: int| 0 <= i < t.drop_last().len() && #[trigger] t.drop_last()[i].key@ == x;
                assert(t[i].key@ == x);
            }
        }
        lemma_absent(t.drop_last(), x);
        assert(t[t.len() - 1].key@ != x);
    }
}

/// Replacing row `i` by a row with the same key changes that key's totals
/// by the difference and leaves every other key's alone.
proof fn lemma_update(t: Seq<Tally>, i: int, row: Tally, x: Seq<char>)
    requires
        0 <= i < t.len(),
        row.key@ == t[i].key@,
    ensures
        files_at(t.update(i, row), x) + (if x == row.key@ { t[i].files as nat } else { 0 })
            == files_at(t, x) + (if x == row.key@ { row.files as nat } else { 0 }),
        bytes_at(t.update(i, row), x) + (if x == row.key@ { t[i].bytes as nat } else { 0 })
            == bytes_at(t, x) + (if x == row.key@ { row.bytes as nat } else { 0 }),
        lines_at(t.update(i, row), x) + (if x == row.key@ { t[i].lines as nat } else { 0 })
            == lines_at(t, x) + (if x == row.key@ { row.lines as nat } else { 0 }),
        total_files(t.update(i, row)) + t[i].files == total_files(t) + row.files,
        total_bytes(t.update(i, row)) + t[i].bytes == total_bytes(t) + row.bytes,
        total_lines(t.update(i, row)) + t[i].lines == total_lines(t) + row.lines,
    decreases t.len(),
{
    let u = t.update(i, row);
    if i < t.len() - 1 {
        lemma_update(t.drop_last(), i, row, x);
        assert(u.drop_last() =~= t.drop_last().update(i, row));
        assert(u.last() == t.last());
    } else {
        assert(u.drop_last() =~= t.drop_last());
    }
}

/// Inserting a row at `i` adds its totals under its key.
proof fn lemma_insert(t: Seq<Tally>, i: int, row: Tally, x: Seq<char>)
    requires
        0 <= i <= t.len(),
    ensures
        files_at(t.insert(i, row), x) == files_at(t, x) + (if x == row.key@ { row.files as nat } else { 0 }),
        bytes_at(t.insert(i, row), x) == bytes_at(t, x) + (if x == row.key@ { row.bytes as nat } else { 0 }),
        lines_at(t.insert(i, row), x) == lines_at(t, x) + (if x == row.key@ { row.lines as nat } else { 0 }),
        total_files(t.insert(i, row)) == total_files(t) + row.files,
        total_bytes(t.insert(i, row)) == total_bytes(t) + row.bytes,
        total_lines(t.insert(i, row)) == total_lines(t) + row.lines,
    decreases t.len(),
{
    let u = t.insert(i, row);
    if i == t.len() {
        assert(u.drop_last() =~= t);
    } else {
        lemma_insert(t.drop_last(), i, row, x);
        assert(u.drop_last() =~= t.drop_last().insert(i, row));
        assert(u.last() == t.last());
    }
}

/// Adds one file with `bytes` and `lines` under `key`, adding the key if the
/// table lacks it, and keeps the keys sorted and unique.
pub fn bump(table: &mut Vec<Tally>, key: &str, bytes: u64, lines: u64)
    requires
        keys_sorted(old(table)@),
        files_at(old(table)@, key@) < usize::MAX,
        bytes_at(old(table)@, key@) + bytes <= u64::MAX,
        lines_at(old(table)@, key@) + lines <= u64::MAX,
    ensures
        keys_sorted(final(table)@),
        forall|x: Seq<char>|
            #![trigger files_at(final(table)@, x)]
            files_at(final(table)@, x) == files_at(old(table)@, x) + if x == key@ {
                1nat
            } else {
                0nat
            },
        forall|x: Seq<char>|
            #![trigger bytes_at(final(table)@, x)]
            bytes_at(final(table)@, x) == bytes_at(old(table)@, x) + if x == key@ {
                bytes as nat
            } else {
                0nat
            },
        forall|x: Seq<char>|
            #![trigger lines_at(final(table)@, x)]
            lines_at(final(table)@, x) == lines_at(old(table)@, x) + if x == key@ {
                lines as nat
            } else {
                0nat
            },
        forall|x: Seq<char>|
            #![trigger has_key(final(table)@, x)]
            has_key(final(table)@, x) == (has_key(old(table)@, x) || x == key@),
        total_files(final(table)@) == total_files(old(table)@) + 1,
        total_bytes(final(table)@) == total_bytes(old(table)@) + bytes,
        total_lines(final(table)@) == total_lines(old(table)@) + lines,
{
    let ghost t0 = table@;
    let mut lo: usize = 0;
    let mut hi: usize = table.len();
    while lo < hi
        invariant
            table@ == t0,
            keys_sorted(t0),
            lo <= hi <= t0.len(),
            forall|j: int| 0 <= j < lo ==> str_le(#[trigger] t0[j].key@, key@) && t0[j].key@ != key@,
            forall|j: int| hi <= j < t0.len() ==> str_le(key@, #[trigger] t0[j].key@),
        decreases hi - lo,
    {
        let mid = lo + (hi - lo) / 2;
        if text::str_le_exec(key, table[mid].key.as_str()) {
            proof {
                assert forall|j: int| mid <= j < t0.len() implies str_le(key@, #[trigger] t0[j].key@) by {
                    if j > mid {
                        text::lemma_str_le_transitive(key@, t0[mid as int].key@, t0[j].key@);
                    }
                }
            }
            hi = mid;
        } else {
            proof {
                text::lemma_str_le_total(key@, t0[mid as int].key@);
                if t0[mid as int].key@ == key@ {
                    text::lemma_str_le_reflexive(key@);
                }
                assert forall|j: int| 0 <= j <= mid implies str_le(#[trigger] t0[j].key@, key@)
                    && t0[j].key@ != key@ by {
                    if j < mid {
                        text::lemma_str_le_transitive(t0[j].key@, t0[mid as int].key@, key@);
                        if t0[j].key@ == key@ {
                            text::lemma_str_le_antisymmetric(t0[mid as int].key@, key@);
                        }
                    }
                }
            }
            lo = mid + 1;
        }
    }
    let found = lo < table.len() && text::str_le_exec(table[lo].key.as_str(), key);
    if found {
        proof {
            text::lemma_str_le_antisymmetric(t0[lo as int].key@, key@);
            lemma_row(t0, lo as int);
        }
        let old_files = table[lo].files;
        let old_bytes = table[lo].bytes;
        let old_lines = table[lo].lines;
        let ghost old_row = t0[lo as int];
        table[lo].files = old_files + 1;
        table[lo].bytes = old_bytes + bytes;
        table[lo].lines = old_lines + lines;
        proof {
            let row = table@[lo as int];
            assert(table@ =~= t0.update(lo as int, row));
            assert forall|i: int, j: int| 0 <= i < j < table@.len() implies str_le(
                #[trigger] table@[i].key@,
                #[trigger] table@[j].key@,
            ) && table@[i].key@ != table@[j].key@ by {
                assert(t0[i].key@ == table@[i].key@);
                assert(t0[j].key@ == table@[j].key@);
            }
            assert forall|x: Seq<char>| #![trigger files_at(table@, x)] files_at(table@, x) == files_at(t0, x) + if x == key@ {
                1nat
            } else {
                0nat
            } by {
                lemma_update(t0, lo as int, row, x);
            }
            assert forall|x: Seq<char>| #![trigger bytes_at(table@, x)] bytes_at(table@, x) == bytes_at(t0, x) + if x == key@ {
                bytes as nat
            } else {
                0nat
            } by {
                lemma_update(t0, lo as int, row, x);
            }
            assert forall|x: Seq<char>| #![trigger lines_at(table@, x)] lines_at(table@, x) == lines_at(t0, x) + if x == key@ {
                lines as nat
            } else {
                0nat
            } by {
                lemma_update(t0, lo as int, row, x);
            }
            assert forall|x: Seq<char>| #![trigger has_key(table@, x)] has_key(table@, x) == (has_key(t0, x) || x == key@) by {
                if has_key(t0, x) {
                    let i = choose|i: int| 0 <= i < t0.len() && #[trigger] t0[i].key@ == x;
                    assert(table@[i].key@ == x);
                }
                if has_key(table@, x) {
                    let i = choose|i: int| 0 <= i < table@.len() && #[trigger] table@[i].key@ == x;
                    assert(t0[i].key@ == x);
                }
                if x == key@ {
                    assert(table@[lo as int].key@ == x);
                }
            }
            lemma_update(t0, lo as int, row, key@);
        }
    } else {
        let new_row = Tally { key: key.to_owned(), files: 1, bytes, lines };
        proof {
            if lo < t0.len() {
                assert(str_le(key@, t0[lo as int].key@));
                if t0[lo as int].key@ == key@ {
                    text::lemma_str_le_reflexive(key@);
                }
            }
            if has_key(t0, key@) {
                let i = choose|i: int| 0 <= i < t0.len() && #[trigger] t0[i].key@ == key@;
                if i >= lo as int {
                    if i > lo as int {
                        assert(str_le(t0[lo as int].key@, t0[i].key@));
                        text::lemma_str_le_antisymmetric(key@, t0[lo as int].key@);
                    }
                }
            }
        }
        table.insert(lo, new_row);
        proof {
            let r = table@[lo as int];
            assert(table@ =~= t0.insert(lo as int, r));
            assert forall|i: int, j: int| 0 <= i < j < table@.len() implies str_le(
                #[trigger] table@[i].key@,
                #[trigger] table@[j].key@,
            ) && table@[i].key@ != table@[j].key@ by {
                if j < lo {
                    assert(table@[i] == t0[i]);
                    assert(table@[j] == t0[j]);
                } else if j == lo {
                    assert(table@[i] == t0[i]);
                } else if i == lo {
                    assert(table@[j] == t0[j - 1]);
                } else if i < lo {
                    assert(table@[i] == t0[i]);
                    assert(table@[j] == t0[j - 1]);
                    assert(str_le(t0[i].key@, key@));
                    assert(str_le(key@, t0[j - 1].key@));
                    text::lemma_str_le_transitive(t0[i].key@, key@, t0[j - 1].key@);
                    if t0[i].key@ == t0[j - 1].key@ {
                        text::lemma_str_le_antisymmetric(t0[i].key@, key@);
                    }
                } else {
                    assert(table@[i] == t0[i - 1]);
                    assert(table@[j] == t0[j - 1]);
                }
            }
            assert forall|x: Seq<char>| #![trigger files_at(table@, x)] files_at(table@, x) == files_at(t0, x) + if x == key@ {
                1nat
            } else {
                0nat
            } by {
                lemma_insert(t0, lo as int, r, x);
            }
            assert forall|x: Seq<char>| #![trigger bytes_at(table@, x)] bytes_at(table@, x) == bytes_at(t0, x) + if x == key@ {
                bytes as nat
            } else {
                0nat
            } by {
                lemma_insert(t0, lo as int, r, x);
            }
            assert forall|x: Seq<char>| #![trigger lines_at(table@, x)] lines_at(table@, x) == lines_at(t0, x) + if x == key@ {
                lines as nat
            } else {
                0nat
            } by {
                lemma_insert(t0, lo as int, r, x);
            }
            assert forall|x: Seq<char>| #![trigger has_key(table@, x)] has_key(table@, x) == (has_key(t0, x) || x == key@) by {
                if has_key(t0, x) {
                    let i = choose|i: int| 0 <= i < t0.len() && #[trigger] t0[i].key@ == x;
                    if i < lo {
                        assert(table@[i].key@ == x);
                    } else {
                        assert(table@[i + 1].key@ == x);
                    }
                }
                if has_key(table@, x) {
                    let i = choose|i: int| 0 <= i < table@.len() && #[trigger] table@[i].key@ == x;
                    if i < lo {
                        assert(t0[i].key@ == x);
                    } else if i > lo {
                        assert(t0[i - 1].key@ == x);
                    }
                }
                if x == key@ {
                    assert(table@[lo as int].key@ == x);
                }
            }
            lemma_insert(t0, lo as int, r, key@);
        }
    }
}

} // verus!
