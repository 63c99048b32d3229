//! The catalog: the deterministic name-to-track mapping built once at
//! startup.
//!
//! Files are decoded in whatever order finishes first; the catalog is
//! assembled afterwards, keyed on file name, so the resulting listing does not
//! depend on that order: names are held sorted, and a track's index is its
//! name's rank. Names must be unique and render-safe (ASCII); a non-ASCII
//! name is a fatal load error.

use vstd::prelude::*;
use vstd::string::StrSliceExecFns;

use crate::engine::{Command, Track};

verus! {

/// Lexicographic order on names, character by character.
pub open spec fn name_lt(a: Seq<char>, b: Seq<char>) -> bool
    decreases a.len(),
{
    if b.len() == 0 {
        false
    } else if a.len() == 0 {
        true
    } else if a[0] == b[0] {
        name_lt(a.drop_first(), b.drop_first())
    } else {
        (a[0] as u32) < (b[0] as u32)
    }
}

/// No name sorts before itself.
pub proof fn lemma_name_lt_irreflexive(a: Seq<char>)
    ensures
        !name_lt(a, a),
    decreases a.len(),
{
    if a.len() > 0 {
        lemma_name_lt_irreflexive(a.drop_first());
    }
}

/// Of two different names, one sorts before the other.
pub proof fn lemma_name_lt_connected(a: Seq<char>, b: Seq<char>)
    requires
        a != b,
    ensures
        name_lt(a, b) || name_lt(b, a),
    decreases a.len(),
{
    if a.len() == 0 && b.len() == 0 {
        assert(a =~= b);
    } else if a.len() > 0 && b.len() > 0 && a[0] == b[0] {
        if a.drop_first() == b.drop_first() {
            assert(a.drop_first().len() == b.drop_first().len());
            assert(a.len() == b.len());
            assert forall|k: int| 0 <= k < a.len() implies a[k] == b[k] by {
                if k > 0 {
                    assert(a[k] == a.drop_first()[k - 1]);
                    assert(b[k] == b.drop_first()[k - 1]);
                }
            }
            assert(a =~= b);
        } else {
            lemma_name_lt_connected(a.drop_first(), b.drop_first());
        }
    } else if a.len() > 0 && b.len() > 0 {
        vstd::utf8::char_u32_cast(a[0], a[0] as u32);
        vstd::utf8::char_u32_cast(b[0], b[0] as u32);
        assert((a[0] as u32) != (b[0] as u32));
    }
}

/// The name order is transitive.
pub proof fn lemma_name_lt_transitive(a: Seq<char>, b: Seq<char>, c: Seq<char>)
    requires
        name_lt(a, b),
        name_lt(b, c),
    ensures
        name_lt(a, c),
    decreases a.len(),
{
    if a.len() > 0 && b.len() > 0 && c.len() > 0 && a[0] == b[0] && b[0] == c[0] {
        lemma_name_lt_transitive(a.drop_first(), b.drop_first(), c.drop_first());
    }
}

/// Compares two names in the lexicographic order.
pub fn str_lt(a: &str, b: &str) -> (r: bool)
    ensures
        r == name_lt(a@, b@),
{
    let na = a.unicode_len();
    let nb = b.unicode_len();
    let mut i: usize = 0;
    proof {
        assert(a@.skip(0) =~= a@);
        assert(b@.skip(0) =~= b@);
    }
    while i < na && i < nb
        invariant
            0 <= i <= na,
            0 <= i <= nb,
            na == a@.len(),
            nb == b@.len(),
            name_lt(a@, b@) == name_lt(a@.skip(i as int), b@.skip(i as int)),
        decreases na - i,
    {
        let ca = a.get_char(i);
        let cb = b.get_char(i);
        proof {
            let x = a@.skip(i as int);
            let y = b@.skip(i as int);
            assert(x[0] == a@[i as int] && y[0] == b@[i as int]);
            if ca == cb {
                assert(x.drop_first() =~= a@.skip(i as int + 1));
                assert(y.drop_first() =~= b@.skip(i as int + 1));
            }
        }
        if ca != cb {
            return (ca as u32) < (cb as u32);
        }
        i = i + 1;
    }
    proof {
        let x = a@.skip(i as int);
        let y = b@.skip(i as int);
        if i == na {
            assert(x.len() == 0);
        } else {
            assert(y.len() == 0);
        }
    }
    i < nb
}

/// One decoded file: its name and its PCM samples. What the catalog is
/// assembled from, in whatever order the decodes finished.
pub struct Entry {
    pub name: String,
    pub track: Track,
}

/// The entries' names strictly ascend in the lexicographic order.
pub open spec fn strictly_sorted_entries(s: Seq<Entry>) -> bool {
    forall|i: int, j: int| 0 <= i < j < s.len() ==> #[trigger] name_lt(s[i].name@, s[j].name@)
}

/// No two entries share a name.
pub open spec fn distinct_names(s: Seq<Entry>) -> bool {
    forall|i: int, j: int|
        #![trigger s[i].name, s[j].name]
        0 <= i < j < s.len() ==> s[i].name@ != s[j].name@
}

/// Inserts an entry at its name's rank, keeping the entries sorted.
fn insert_sorted(v: &mut Vec<Entry>, e: Entry)
    requires
        strictly_sorted_entries(old(v)@),
        forall|q: int| 0 <= q < old(v)@.len() ==> (#[trigger] old(v)@[q].name)@ != e.name@,
    ensures
        strictly_sorted_entries(final(v)@),
        final(v)@.len() == old(v)@.len() + 1,
        final(v)@.to_multiset() == old(v)@.to_multiset().insert(e),
{
    broadcast use vstd::seq_lib::group_to_multiset_ensures;

    let ghost v0 = v@;
    let mut p: usize = 0;
    while p < v.len() && str_lt(v[p].name.as_str(), e.name.as_str())
        invariant
            v@ == v0,
            0 <= p <= v0.len(),
            forall|q: int| 0 <= q < p ==> name_lt(#[trigger] v0[q].name@, e.name@),
        decreases v0.len() - p,
    {
        p = p + 1;
    }
    proof {
        if (p as int) < v0.len() {
            lemma_name_lt_connected(v0[p as int].name@, e.name@);
        }
        assert forall|q: int| p <= q < v0.len() implies name_lt(
            e.name@,
            #[trigger] v0[q].name@,
        ) by {
            if q > p {
                lemma_name_lt_transitive(e.name@, v0[p as int].name@, v0[q].name@);
            }
        }
    }
    v.insert(p, e);
    proof {
        let v2 = v@;
        v0.insert_ensures(p as int, e);
        assert forall|i: int, j: int| 0 <= i < j < v2.len() implies name_lt(
            v2[i].name@,
            v2[j].name@,
        ) by {
            if i < p && j < p {
            } else if j == p {
                assert(v2[i] == v0[i]);
            } else if i == p {
                assert(v2[j] == v0[j - 1]);
            } else if i < p {
                assert(v2[i] == v0[i] && v2[j] == v0[j - 1]);
            } else {
                assert(v2[i] == v0[i - 1] && v2[j] == v0[j - 1]);
            }
        }
        // The inserted sequence holds the same entries plus the new one.
        assert(v2.remove(p as int) =~= v0);
        assert(v2.to_multiset().remove(e) =~= v0.to_multiset());
        assert(v2.to_multiset().contains(v2[p as int]));
        assert(v2.to_multiset() =~= v0.to_multiset().insert(e));
    }
}

/// Every entry's name is render-safe.
pub open spec fn all_names_ascii(s: Seq<Entry>) -> bool {
    forall|i: int| 0 <= i < s.len() ==> #[trigger] vstd::string::string_is_ascii(&s[i].name)
}

/// The reason a catalog cannot be built; any load failure is fatal at
/// startup.
#[derive(Clone, Copy, PartialEq, Eq, Structural, Debug)]
pub enum CatalogError {
    /// A file name is not representable in the render-safe character set.
    NonAsciiName,
}

/// The deterministic name-to-track mapping: names in strictly ascending
/// order, a track's index being its name's rank. Built once at startup,
/// read-only afterwards.
pub struct Catalog {
    pub names: Vec<String>,
}

/// The names strictly ascend in the lexicographic order.
pub open spec fn strictly_sorted_names(ns: Seq<Seq<char>>) -> bool {
    forall|i: int, j: int| 0 <= i < j < ns.len() ==> #[trigger] name_lt(ns[i], ns[j])
}

/// The name stands somewhere in the listing.
pub open spec fn name_in_seq(ns: Seq<Seq<char>>, n: Seq<char>) -> bool {
    exists|j: int| 0 <= j < ns.len() && ns[j] == n
}

impl Catalog {
    /// The names as character sequences, in listing order.
    pub open spec fn spec_names(self) -> Seq<Seq<char>> {
        self.names@.map_values(|s: String| s@)
    }

    /// A well-formed catalog lists its names in strictly ascending order; in
    /// particular no name is listed twice.
    pub open spec fn wf(self) -> bool {
        strictly_sorted_names(self.spec_names())
    }

    /// The alphabetized list of track names, for rendering.
    pub fn song_list(&self) -> (r: &Vec<String>)
        ensures
            *r == self.names,
    {
        &self.names
    }

    /// The index of a name, or `None` where the catalog does not list it.
    pub fn lookup(&self, name: &String) -> (r: Option<usize>)
        ensures
            match r {
                Some(i) => i < self.names@.len() && self.names@[i as int]@ == name@,
                None => forall|i: int|
                    0 <= i < self.names@.len() ==> (#[trigger] self.names@[i])@ != name@,
            },
    {
        let mut i: usize = 0;
        while i < self.names.len()
            invariant
                0 <= i <= self.names@.len(),
                forall|k: int| 0 <= k < i ==> (#[trigger] self.names@[k])@ != name@,
            decreases self.names@.len() - i,
        {
            if self.names[i] == *name {
                return Some(i);
            }
            i = i + 1;
        }
        None
    }

    /// Readies playing the named track: the load command to queue for it, or
    /// `None` where the catalog does not list the name. The caller must pick
    /// names from the catalog's own listing.
    pub fn load_song(&self, name: &String) -> (r: Option<Command>)
        ensures
            match r {
                Some(c) => match c {
                    Command::LoadTrack(i) => i < self.names@.len() && self.names@[i as int]@
                        == name@,
                    _ => false,
                },
                None => forall|i: int|
                    0 <= i < self.names@.len() ==> (#[trigger] self.names@[i])@ != name@,
            },
    {
        match self.lookup(name) {
            Some(i) => Some(Command::LoadTrack(i)),
            None => None,
        }
    }
}

/// An entry of the input stands at a slot of the built catalog: same name,
/// same samples.
pub open spec fn entry_at(e: Entry, name: String, t: Track) -> bool {
    e.name@ == name@ && e.track@ == t@
}

/// In a strictly ascending listing, distinct slots hold distinct names.
pub proof fn lemma_sorted_names_distinct(ns: Seq<Seq<char>>, i: int, j: int)
    requires
        strictly_sorted_names(ns),
        0 <= i < ns.len(),
        0 <= j < ns.len(),
        i != j,
    ensures
        ns[i] != ns[j],
{
    if i < j {
        assert(name_lt(ns[i], ns[j]));
        lemma_name_lt_irreflexive(ns[i]);
    } else {
        assert(name_lt(ns[j], ns[i]));
        lemma_name_lt_irreflexive(ns[i]);
    }
}

/// Two strictly ascending listings of the same names are the same listing:
/// the order of the input cannot show in the output.
pub proof fn lemma_sorted_names_unique(x: Seq<Seq<char>>, y: Seq<Seq<char>>)
    requires
        strictly_sorted_names(x),
        strictly_sorted_names(y),
        forall|n: Seq<char>| #[trigger] name_in_seq(x, n) <==> #[trigger] name_in_seq(y, n),
    ensures
        x =~= y,
    decreases x.len(),
{
    if x.len() == 0 {
        if y.len() > 0 {
            assert(name_in_seq(y, y[0]));
            assert(name_in_seq(x, y[0]));
        }
    } else if y.len() == 0 {
        assert(name_in_seq(x, x[0]));
        assert(name_in_seq(y, x[0]));
    } else {
        // The heads are equal: each head stands in the other listing, and
        // anything above slot 0 sorts strictly after the head.
        assert(name_in_seq(y, x[0])) by {
            assert(name_in_seq(x, x[0]));
        }
        assert(name_in_seq(x, y[0])) by {
            assert(name_in_seq(y, y[0]));
        }
        let k = choose|k: int| 0 <= k < y.len() && y[k] == x[0];
        let l = choose|l: int| 0 <= l < x.len() && x[l] == y[0];
        if k > 0 && l > 0 {
            assert(name_lt(y[0], y[k]));
            assert(name_lt(x[0], x[l]));
            lemma_name_lt_transitive(x[0], y[0], x[0]);
            lemma_name_lt_irreflexive(x[0]);
        }
        assert(x[0] == y[0]);

        let xt = x.drop_first();
        let yt = y.drop_first();
        assert forall|i: int, j: int| 0 <= i < j < xt.len() implies #[trigger] name_lt(
            xt[i],
            xt[j],
        ) by {
            assert(xt[i] == x[i + 1] && xt[j] == x[j + 1]);
        }
        assert forall|i: int, j: int| 0 <= i < j < yt.len() implies #[trigger] name_lt(
            yt[i],
            yt[j],
        ) by {
            assert(yt[i] == y[i + 1] && yt[j] == y[j + 1]);
        }
        assert forall|n: Seq<char>| #[trigger] name_in_seq(xt, n) <==> #[trigger] name_in_seq(
            yt,
            n,
        ) by {
            if name_in_seq(xt, n) {
                let i = choose|i: int| 0 <= i < xt.len() && xt[i] == n;
                assert(x[i + 1] == n);
                assert(name_in_seq(x, n));
                assert(name_in_seq(y, n));
                let j = choose|j: int| 0 <= j < y.len() && y[j] == n;
                lemma_sorted_names_distinct(x, 0, i + 1);
                if j == 0 {
                    assert(y[0] == n && x[0] == y[0]);
                } else {
                    assert(yt[j - 1] == n);
                    assert(name_in_seq(yt, n));
                }
            }
            if name_in_seq(yt, n) {
                let i = choose|i: int| 0 <= i < yt.len() && yt[i] == n;
                assert(y[i + 1] == n);
                assert(name_in_seq(y, n));
                assert(name_in_seq(x, n));
                let j = choose|j: int| 0 <= j < x.len() && x[j] == n;
                lemma_sorted_names_distinct(y, 0, i + 1);
                if j == 0 {
                    assert(x[0] == n && x[0] == y[0]);
                } else {
                    assert(xt[j - 1] == n);
                    assert(name_in_seq(xt, n));
                }
            }
        }
        lemma_sorted_names_unique(xt, yt);
        assert forall|m: int| 0 <= m < x.len() implies x[m] == y[m] by {
            if m > 0 {
                assert(xt[m - 1] == yt[m - 1]);
            }
        }
    }
}

/// Some entry of the input carries this name and these samples.
pub open spec fn entry_listed(entries: Seq<Entry>, name: String, t: Track) -> bool {
    exists|i: int| 0 <= i < entries.len() && entry_at(#[trigger] entries[i], name, t)
}

/// The entry stands at some slot of the listing.
pub open spec fn listed_in(e: Entry, names: Seq<String>, tracks: Seq<Track>) -> bool {
    exists|j: int| 0 <= j < names.len() && entry_at(e, #[trigger] names[j], tracks[j])
}

/// The listing holds exactly the given entries: every slot holds some entry's
/// name and samples, and every entry stands at some slot.
pub open spec fn lists_exactly(entries: Seq<Entry>, names: Seq<String>, tracks: Seq<Track>) -> bool {
    &&& names.len() == entries.len()
    &&& tracks.len() == entries.len()
    &&& forall|j: int|
        0 <= j < names.len() ==> entry_listed(entries, #[trigger] names[j], tracks[j])
    &&& forall|i: int| 0 <= i < entries.len() ==> listed_in(#[trigger] entries[i], names, tracks)
}

/// Some entry of the batch carries this name and these samples.
pub open spec fn has_assoc(s: Seq<Entry>, name: Seq<char>, samples: Seq<i16>) -> bool {
    exists|i: int| 0 <= i < s.len() && (#[trigger] s[i]).name@ == name && s[i].track@ == samples
}

/// The two batches carry the same name-to-samples associations: the same
/// files, delivered in any orders.
pub open spec fn same_associations(a: Seq<Entry>, b: Seq<Entry>) -> bool {
    &&& forall|i: int| 0 <= i < a.len() ==> has_assoc(b, (#[trigger] a[i]).name@, a[i].track@)
    &&& forall|i: int| 0 <= i < b.len() ==> has_assoc(a, (#[trigger] b[i]).name@, b[i].track@)
}

/// Determinism of the catalog: two well-formed catalogs built from batches
/// holding the same associations list the same names in the same order and
/// hold the same track at every index, however the batches were ordered.
pub proof fn lemma_catalog_deterministic(
    e1: Seq<Entry>,
    c1: Catalog,
    t1: Seq<Track>,
    e2: Seq<Entry>,
    c2: Catalog,
    t2: Seq<Track>,
)
    requires
        c1.wf(),
        c2.wf(),
        lists_exactly(e1, c1.names@, t1),
        lists_exactly(e2, c2.names@, t2),
        same_associations(e1, e2),
    ensures
        c1.spec_names() =~= c2.spec_names(),
        t1.len() == t2.len(),
        forall|j: int| 0 <= j < t1.len() ==> #[trigger] t1[j]@ == t2[j]@,
{
    // The two listings hold the same names.
    assert forall|n: Seq<char>|
        #[trigger] name_in_seq(c1.spec_names(), n) <==> #[trigger] name_in_seq(
            c2.spec_names(),
            n,
        ) by {
        if name_in_seq(c1.spec_names(), n) {
            let j = choose|j: int| 0 <= j < c1.spec_names().len() && c1.spec_names()[j] == n;
            assert(c1.names@[j]@ == n);
            assert(entry_listed(e1, c1.names@[j], t1[j]));
            let i = choose|i: int| 0 <= i < e1.len() && entry_at(e1[i], c1.names@[j], t1[j]);
            assert(has_assoc(e2, e1[i].name@, e1[i].track@));
            let i2 = choose|i2: int|
                0 <= i2 < e2.len() && e2[i2].name@ == e1[i].name@ && e2[i2].track@
                    == e1[i].track@;
            assert(listed_in(e2[i2], c2.names@, t2));
            let j2 = choose|j2: int|
                0 <= j2 < c2.names@.len() && entry_at(e2[i2], c2.names@[j2], t2[j2]);
            assert(c2.spec_names()[j2] == n);
            assert(name_in_seq(c2.spec_names(), n));
        }
        if name_in_seq(c2.spec_names(), n) {
            let j = choose|j: int| 0 <= j < c2.spec_names().len() && c2.spec_names()[j] == n;
            assert(c2.names@[j]@ == n);
            assert(entry_listed(e2, c2.names@[j], t2[j]));
            let i = choose|i: int| 0 <= i < e2.len() && entry_at(e2[i], c2.names@[j], t2[j]);
            assert(has_assoc(e1, e2[i].name@, e2[i].track@));
            let i2 = choose|i2: int|
                0 <= i2 < e1.len() && e1[i2].name@ == e2[i].name@ && e1[i2].track@
                    == e2[i].track@;
            assert(listed_in(e1[i2], c1.names@, t1));
            let j2 = choose|j2: int|
                0 <= j2 < c1.names@.len() && entry_at(e1[i2], c1.names@[j2], t1[j2]);
            assert(c1.spec_names()[j2] == n);
            assert(name_in_seq(c1.spec_names(), n));
        }
    }
    lemma_sorted_names_unique(c1.spec_names(), c2.spec_names());

    // Equal slots hold the same track.
    assert forall|j: int| 0 <= j < t1.len() implies #[trigger] t1[j]@ == t2[j]@ by {
        assert(entry_listed(e1, c1.names@[j], t1[j]));
        let i = choose|i: int| 0 <= i < e1.len() && entry_at(e1[i], c1.names@[j], t1[j]);
        assert(has_assoc(e2, e1[i].name@, e1[i].track@));
        let i2 = choose|i2: int|
            0 <= i2 < e2.len() && e2[i2].name@ == e1[i].name@ && e2[i2].track@ == e1[i].track@;
        assert(listed_in(e2[i2], c2.names@, t2));
        let j2 = choose|j2: int|
            0 <= j2 < c2.names@.len() && entry_at(e2[i2], c2.names@[j2], t2[j2]);
        assert(c2.spec_names()[j2] == e1[i].name@);
        assert(c2.spec_names()[j] == c1.spec_names()[j]);
        assert(c2.spec_names()[j] == e1[i].name@);
        if j2 != j {
            lemma_sorted_names_distinct(c2.spec_names(), j, j2);
        }
        assert(t2[j]@ == e2[i2].track@);
    }
}

/// Builds the catalog from decoded entries, in whatever order they arrive:
/// names are ranked alphabetically and the tracks ordered accordingly. A
/// non-ASCII name is a fatal load error; there is no partial catalog.
pub fn build_catalog(entries: Vec<Entry>) -> (r: Result<(Catalog, Vec<Track>), CatalogError>)
    requires
        distinct_names(entries@),
    ensures
        match r {
            Ok(p) => {
                &&& all_names_ascii(entries@)
                &&& p.0.wf()
                &&& lists_exactly(entries@, p.0.names@, p.1@)
            },
            Err(e) => e == CatalogError::NonAsciiName && !all_names_ascii(entries@),
        },
{
    broadcast use vstd::seq_lib::group_to_multiset_ensures;
    broadcast use vstd::multiset::group_multiset_axioms;

    // Refuse any name outside the render-safe character set.
    let mut i: usize = 0;
    while i < entries.len()
        invariant
            0 <= i <= entries@.len(),
            forall|k: int|
                0 <= k < i ==> #[trigger] vstd::string::string_is_ascii(&entries@[k].name),
        decreases entries@.len() - i,
    {
        if !entries[i].name.is_ascii() {
            return Err(CatalogError::NonAsciiName);
        }
        i = i + 1;
    }

    // Sort the entries by name: the result no longer depends on the order
    // the decodes arrived in.
    let ghost entries0 = entries@;
    let mut rest = entries;
    let mut sorted: Vec<Entry> = Vec::new();
    while rest.len() > 0
        invariant
            rest@ == entries0.take(rest@.len() as int),
            sorted@.len() + rest@.len() == entries0.len(),
            distinct_names(entries0),
            strictly_sorted_entries(sorted@),
            sorted@.to_multiset() == entries0.skip(rest@.len() as int).to_multiset(),
        decreases rest@.len(),
    {
        let ghost k = rest@.len() as int;
        let e = match rest.pop() {
            Some(e) => e,
            None => {
                return Err(CatalogError::NonAsciiName);  // unreachable: the batch is nonempty
            },
        };
        proof {
            assert(e == entries0[k - 1]);
            assert(rest@ =~= entries0.take(k - 1));
            let tail = entries0.skip(k);
            let whole = entries0.skip(k - 1);
            assert(whole[0] == entries0[k - 1]);
            assert(whole.remove(0) =~= tail);
            assert(whole.contains(e));
            whole.to_multiset_ensures();
            assert(whole.to_multiset().count(e) > 0);
            assert(whole.remove(0).to_multiset() =~= whole.to_multiset().remove(e));
            assert(tail.to_multiset() =~= whole.to_multiset().remove(e));
            assert(whole.to_multiset().remove(e).insert(e) =~= whole.to_multiset());
            // The new entry's name differs from every name already placed.
            assert forall|q: int| 0 <= q < sorted@.len() implies (#[trigger] sorted@[q].name)@
                != e.name@ by {
                assert(sorted@.contains(sorted@[q]));
                sorted@.to_multiset_ensures();
                tail.to_multiset_ensures();
                assert(sorted@.to_multiset().count(sorted@[q]) > 0);
                assert(tail.to_multiset().count(sorted@[q]) > 0);
                assert(tail.contains(sorted@[q]));
                let l = choose|l: int| 0 <= l < tail.len() && tail[l] == sorted@[q];
                assert(entries0[k + l] == sorted@[q]);
                assert(entries0[k - 1].name@ != entries0[k + l].name@);
            }
        }
        insert_sorted(&mut sorted, e);
        proof {
            assert(sorted@.to_multiset() =~= entries0.skip(k - 1).to_multiset());
        }
    }
    proof {
        assert(entries0.skip(0) =~= entries0);
    }

    // Split the sorted entries into the name listing and the track list.
    let ghost sorted_seq = sorted@;
    let mut names: Vec<String> = Vec::new();
    let mut tracks: Vec<Track> = Vec::new();
    let mut rest2 = sorted;
    while rest2.len() > 0
        invariant
            names@.len() == tracks@.len(),
            names@.len() + rest2@.len() == sorted_seq.len(),
            rest2@ == sorted_seq.skip(names@.len() as int),
            forall|l: int|
                0 <= l < names@.len() ==> (#[trigger] names@[l]) == sorted_seq[l].name && tracks@[l]
                    == sorted_seq[l].track,
        decreases rest2@.len(),
    {
        let ghost j = names@.len() as int;
        let e = rest2.remove(0);
        proof {
            assert(sorted_seq.skip(j)[0] == sorted_seq[j]);
            assert(sorted_seq.skip(j).remove(0) =~= sorted_seq.skip(j + 1));
        }
        names.push(e.name);
        tracks.push(e.track);
    }

    let cat = Catalog { names };
    proof {
        let n = entries0.len() as int;
        entries0.to_multiset_ensures();
        sorted_seq.to_multiset_ensures();
        assert(sorted_seq.len() == n) by {
            assert(sorted_seq.to_multiset().len() == entries0.to_multiset().len());
        }
        // The listing is strictly sorted.
        assert forall|i2: int, j2: int|
            0 <= i2 < j2 < cat.spec_names().len() implies #[trigger] name_lt(
            cat.spec_names()[i2],
            cat.spec_names()[j2],
        ) by {
            assert(cat.names@[i2] == sorted_seq[i2].name);
            assert(cat.names@[j2] == sorted_seq[j2].name);
        }
        // Each slot of the output holds an entry of the input, and each entry
        // of the input stands at a slot of the output.
        assert forall|j2: int| 0 <= j2 < cat.names@.len() implies entry_listed(
            entries0,
            #[trigger] cat.names@[j2],
            tracks@[j2],
        ) by {
            assert(sorted_seq.contains(sorted_seq[j2]));
            assert(entries0.to_multiset().count(sorted_seq[j2]) > 0);
            assert(entries0.contains(sorted_seq[j2]));
            let i2 = choose|i2: int| 0 <= i2 < entries0.len() && entries0[i2] == sorted_seq[j2];
            assert(entry_at(entries0[i2], cat.names@[j2], tracks@[j2]));
        }
        assert forall|i2: int| 0 <= i2 < entries0.len() implies listed_in(
            #[trigger] entries0[i2],
            cat.names@,
            tracks@,
        ) by {
            assert(entries0.contains(entries0[i2]));
            assert(sorted_seq.to_multiset().count(entries0[i2]) > 0);
            assert(sorted_seq.contains(entries0[i2]));
            let j2 = choose|j2: int| 0 <= j2 < sorted_seq.len() && sorted_seq[j2] == entries0[i2];
            assert(entry_at(entries0[i2], cat.names@[j2], tracks@[j2]));
        }
        assert(lists_exactly(entries0, cat.names@, tracks@));
    }
    Ok((cat, tracks))
}

} // verus!
