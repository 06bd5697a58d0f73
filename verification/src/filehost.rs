//! Records of the remote file catalog.
//!
//! Fetching the catalog and rendering it are a caller's business; this
//! module holds the record type itself and the rule saying which
//! entries the loader can handle.

use vstd::prelude::*;

verus! {

/// One entry of the remote file catalog.
#[derive(Clone, Debug, Default)]
pub struct Record {
    pub fileid: String,
    pub title: String,
    pub category: String,
    pub kind: String,
    pub os: String,
    pub rating: String,
    pub downloads: String,
    pub published: String,
    pub sortdate: String,
    pub versionid: String,
    pub filename: String,
    pub size: String,
    pub location: String,
    pub author: String,
}

impl Record {
    /// The columns a catalog table shows for this record.
    pub fn columns(&self) -> (r: Vec<&str>)
        ensures
            r@.len() == 3,
            r@[0]@ == self.title@,
            r@[1]@ == self.kind@,
            r@[2]@ == self.author@,
    {
        let mut v: Vec<&str> = Vec::new();
        v.push(self.title.as_str());
        v.push(self.kind.as_str());
        v.push(self.author.as_str());
        v
    }
}

/// Whether a file name ends in `.prg`, ignoring the extension's case.
pub open spec fn has_prg_suffix(s: Seq<char>) -> bool {
    s.len() >= 4 && s[s.len() - 4] == '.' && (s[s.len() - 3] == 'p' || s[s.len() - 3] == 'P') && (
    s[s.len() - 2] == 'r' || s[s.len() - 2] == 'R') && (s[s.len() - 1] == 'g' || s[s.len() - 1]
        == 'G')
}

/// Whether a file name ends in `.d81`, ignoring the extension's case.
pub open spec fn has_d81_suffix(s: Seq<char>) -> bool {
    s.len() >= 4 && s[s.len() - 4] == '.' && (s[s.len() - 3] == 'd' || s[s.len() - 3] == 'D')
        && s[s.len() - 2] == '8' && s[s.len() - 1] == '1'
}

/// Whether the loader can handle a catalog entry: its file name must
/// carry a program or disk-image extension.
pub open spec fn loadable_record(r: Record) -> bool {
    has_prg_suffix(r.filename@) || has_d81_suffix(r.filename@)
}

/// Whether this file name ends in `.prg` or `.d81`, ignoring case.
fn is_loadable_name(name: &str) -> (r: bool)
    ensures
        r == (has_prg_suffix(name@) || has_d81_suffix(name@)),
{
    let chars = crate::serial::str_chars_vec(name);
    let n = chars.len();
    if n < 4 {
        return false;
    }
    let dot = chars[n - 4];
    let a = chars[n - 3];
    let b = chars[n - 2];
    let c = chars[n - 1];
    if dot != '.' {
        return false;
    }
    let prg = (a == 'p' || a == 'P') && (b == 'r' || b == 'R') && (c == 'g' || c == 'G');
    let d81 = (a == 'd' || a == 'D') && b == '8' && c == '1';
    prg || d81
}

/// The catalog entries the loader can handle, in their original order:
/// those whose file name ends in `.prg` or `.d81`.
pub open spec fn spec_loadable_filter(s: Seq<Record>) -> Seq<Record>
    decreases s.len(),
{
    if s.len() == 0 {
        Seq::empty()
    } else {
        let pre = spec_loadable_filter(s.drop_last());
        if loadable_record(s.last()) {
            pre.push(s.last())
        } else {
            pre
        }
    }
}

/// Keep the catalog entries the loader can handle: those whose file
/// name ends in `.prg` or `.d81`.  Order is preserved.
pub fn filter_loadable(records: Vec<Record>) -> (r: Vec<Record>)
    ensures
        r@ == spec_loadable_filter(records@),
{
    let ghost orig = records@;
    let mut rest = records;
    let mut out: Vec<Record> = Vec::new();
    let ghost mut i: int = 0;
    proof {
        assert(orig.take(0) =~= Seq::<Record>::empty());
        assert(orig.skip(0) =~= orig);
    }
    while rest.len() > 0
        invariant
            0 <= i <= orig.len(),
            rest@ == orig.skip(i),
            out@ == spec_loadable_filter(orig.take(i)),
        decreases rest@.len(),
    {
        let rec = rest.remove(0);
        proof {
            assert(rec == orig[i]);
            assert(orig.skip(i).remove(0) =~= orig.skip(i + 1));
            assert(orig.take(i + 1).drop_last() =~= orig.take(i));
            assert(orig.take(i + 1).last() == orig[i]);
        }
        if is_loadable_name(rec.filename.as_str()) {
            out.push(rec);
        }
        proof {
            i = i + 1;
        }
    }
    proof {
        assert(orig.take(orig.len() as int) =~= orig);
        assert(i == orig.len());
    }
    out
}

/// Lexicographic order on character sequences, by code point.
pub open spec fn chars_le(a: Seq<char>, b: Seq<char>) -> bool
    decreases a.len(),
{
    if a.len() == 0 {
        true
    } else if b.len() == 0 {
        false
    } else if a[0] == b[0] {
        chars_le(a.skip(1), b.skip(1))
    } else {
        a[0] < b[0]
    }
}

/// The catalog's display order: records compare by title.
pub open spec fn title_le(x: Record, y: Record) -> bool {
    chars_le(x.title@, y.title@)
}

/// Comparing a sequence with itself holds.
pub proof fn lemma_chars_le_refl(a: Seq<char>)
    ensures
        chars_le(a, a),
    decreases a.len(),
{
    if a.len() > 0 {
        lemma_chars_le_refl(a.skip(1));
    }
}

/// Any two character sequences compare one way or the other.
pub proof fn lemma_chars_le_total(a: Seq<char>, b: Seq<char>)
    ensures
        chars_le(a, b) || chars_le(b, a),
    decreases a.len(),
{
    if a.len() > 0 && b.len() > 0 && a[0] == b[0] {
        lemma_chars_le_total(a.skip(1), b.skip(1));
    }
}

/// The order on character sequences is transitive.
pub proof fn lemma_chars_le_trans(a: Seq<char>, b: Seq<char>, c: Seq<char>)
    requires
        chars_le(a, b),
        chars_le(b, c),
    ensures
        chars_le(a, c),
    decreases a.len(),
{
    if a.len() > 0 && b.len() > 0 && c.len() > 0 && a[0] == b[0] && b[0] == c[0] {
        lemma_chars_le_trans(a.skip(1), b.skip(1), c.skip(1));
    }
}

/// Lexicographic comparison of two character sequences.
fn chars_le_exec(a: &Vec<char>, b: &Vec<char>) -> (r: bool)
    ensures
        r == chars_le(a@, b@),
{
    let mut i: usize = 0;
    proof {
        assert(a@.skip(0) =~= a@);
        assert(b@.skip(0) =~= b@);
    }
    while i < a.len() && i < b.len()
        invariant
            i <= a@.len(),
            i <= b@.len(),
            chars_le(a@, b@) == chars_le(a@.skip(i as int), b@.skip(i as int)),
        decreases a@.len() - i,
    {
        proof {
            assert(a@.skip(i as int)[0] == a@[i as int]);
            assert(b@.skip(i as int)[0] == b@[i as int]);
        }
        if a[i] != b[i] {
            return a[i] < b[i];
        }
        proof {
            assert(a@.skip(i as int).skip(1) =~= a@.skip(i + 1));
            assert(b@.skip(i as int).skip(1) =~= b@.skip(i + 1));
        }
        i += 1;
    }
    a.len() <= b.len()
}

/// Whether one record's title sorts at or before another's.
fn title_le_exec(x: &Record, y: &Record) -> (r: bool)
    ensures
        r == title_le(*x, *y),
{
    let xt = crate::serial::str_chars_vec(x.title.as_str());
    let yt = crate::serial::str_chars_vec(y.title.as_str());
    chars_le_exec(&xt, &yt)
}

/// Sort catalog records by title: the result holds exactly the same
/// records, and every record's title sorts at or before all later ones.
pub fn sort_by_title(records: Vec<Record>) -> (r: Vec<Record>)
    ensures
        r@.to_multiset() == records@.to_multiset(),
        forall|i: int, j: int|
            0 <= i < j < r@.len() ==> title_le(#[trigger] r@[i], #[trigger] r@[j]),
{
    broadcast use {vstd::seq_lib::group_to_multiset_ensures, vstd::multiset::group_multiset_axioms};

    let ghost orig = records@;
    let mut rest = records;
    let mut out: Vec<Record> = Vec::new();
    proof {
        assert(out@.to_multiset() =~= vstd::multiset::Multiset::<Record>::empty());
        assert(orig.to_multiset() =~= out@.to_multiset().add(rest@.to_multiset()));
    }
    while rest.len() > 0
        invariant
            orig.to_multiset() == out@.to_multiset().add(rest@.to_multiset()),
            forall|i: int, j: int|
                0 <= i < j < out@.len() ==> title_le(#[trigger] out@[i], #[trigger] out@[j]),
            forall|i: int, j: int|
                0 <= i < out@.len() && 0 <= j < rest@.len() ==> title_le(
                    #[trigger] out@[i],
                    #[trigger] rest@[j],
                ),
        decreases rest@.len(),
    {
        // find the least remaining title
        let mut m: usize = 0;
        let mut k: usize = 1;
        proof {
            lemma_chars_le_refl(rest@[0].title@);
        }
        while k < rest.len()
            invariant
                m < rest@.len(),
                k <= rest@.len(),
                forall|j: int| 0 <= j < k ==> title_le(rest@[m as int], #[trigger] rest@[j]),
            decreases rest@.len() - k,
        {
            if !title_le_exec(&rest[m], &rest[k]) {
                // strictly smaller: on ties the earlier entry keeps its
                // place, so equal titles come out in their input order
                proof {
                    lemma_chars_le_total(rest@[m as int].title@, rest@[k as int].title@);
                    lemma_chars_le_refl(rest@[k as int].title@);
                    assert forall|j: int| 0 <= j < k implies title_le(
                        rest@[k as int],
                        #[trigger] rest@[j],
                    ) by {
                        lemma_chars_le_trans(
                            rest@[k as int].title@,
                            rest@[m as int].title@,
                            rest@[j].title@,
                        );
                    }
                }
                m = k;
            }
            k += 1;
        }
        let ghost pre = rest@;
        let least = rest.remove(m);
        proof {
            assert forall|j: int| 0 <= j < rest@.len() implies title_le(
                least,
                #[trigger] rest@[j],
            ) by {
                if j < m {
                    assert(rest@[j] == pre[j]);
                } else {
                    assert(rest@[j] == pre[j + 1]);
                }
            }
            assert forall|i: int| 0 <= i < out@.len() implies title_le(
                #[trigger] out@[i],
                least,
            ) by {}
            pre.to_multiset_ensures();
            out@.to_multiset_ensures();
            assert(rest@ == pre.remove(m as int));
            assert(pre.remove(m as int).to_multiset() == pre.to_multiset().remove(
                pre[m as int],
            ));
            assert(pre.contains(pre[m as int]));
            assert(pre.to_multiset().count(pre[m as int]) > 0);
            assert(out@.push(least).to_multiset() == out@.to_multiset().insert(least));
            assert(out@.push(least).to_multiset().add(rest@.to_multiset()) =~= out@.to_multiset(

            ).add(pre.to_multiset()));
        }
        out.push(least);
    }
    proof {
        assert(rest@.to_multiset() =~= vstd::multiset::Multiset::<Record>::empty());
        assert(out@.to_multiset().add(rest@.to_multiset()) =~= out@.to_multiset());
    }
    out
}

} // verus!
