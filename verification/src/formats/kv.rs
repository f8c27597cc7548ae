use vstd::prelude::*;
use vstd::string::StringSliceAdditionalSpecFns;

use crate::bytes::{
    bytes_eq, count_byte, count_byte_spec, find_byte, find_byte_spec, trim_range, trim_spec,
};

verus! {

/// One named entry of a key-value store.
pub struct KeyValuePair {
    pub name: Vec<u8>,
    pub value: Vec<u8>,
}

/// The views of a run of entries.
pub open spec fn pairs_view(s: Seq<KeyValuePair>) -> Seq<(Seq<u8>, Seq<u8>)> {
    s.map_values(|p: KeyValuePair| (p.name@, p.value@))
}

/// True when no two pairs share a name.
pub open spec fn pairs_distinct(ps: Seq<(Seq<u8>, Seq<u8>)>) -> bool {
    forall|i: int, j: int| 0 <= i < j < ps.len() ==> (#[trigger] ps[i]).0 != (#[trigger] ps[j]).0
}

/// With distinct names, the mapping holds exactly one binding per pair.
pub proof fn lemma_map_of_pairs_dom_len(ps: Seq<(Seq<u8>, Seq<u8>)>)
    requires
        pairs_distinct(ps),
    ensures
        map_of_pairs(ps).dom().finite(),
        map_of_pairs(ps).dom().len() == ps.len(),
    decreases ps.len(),
{
    if ps.len() == 0 {
        assert(map_of_pairs(ps).dom() =~= Set::<Seq<u8>>::empty());
    } else {
        let last = ps.last();
        lemma_map_of_pairs_dom_len(ps.drop_last());
        assert(forall|i: int|
            0 <= i < ps.drop_last().len() ==> (#[trigger] ps.drop_last()[i]).0 != last.0);
        lemma_map_of_pairs_not_found(ps.drop_last(), last.0);
        assert(map_of_pairs(ps).dom() =~= map_of_pairs(ps.drop_last()).dom().insert(last.0));
        broadcast use vstd::set::axiom_set_insert_len;

        assert(map_of_pairs(ps.drop_last()).dom().insert(last.0).len() == map_of_pairs(
            ps.drop_last(),
        ).dom().len() + 1);
    }
}

/// The mapping that a run of pairs builds up in order: a later pair with
/// the same name replaces an earlier one.
pub open spec fn map_of_pairs(ps: Seq<(Seq<u8>, Seq<u8>)>) -> Map<Seq<u8>, Seq<u8>>
    decreases ps.len(),
{
    if ps.len() == 0 {
        Map::empty()
    } else {
        map_of_pairs(ps.drop_last()).insert(ps.last().0, ps.last().1)
    }
}

pub proof fn lemma_map_of_pairs_not_found(ps: Seq<(Seq<u8>, Seq<u8>)>, k: Seq<u8>)
    requires
        forall|i: int| 0 <= i < ps.len() ==> (#[trigger] ps[i]).0 != k,
    ensures
        !map_of_pairs(ps).contains_key(k),
    decreases ps.len(),
{
    if ps.len() > 0 {
        lemma_map_of_pairs_not_found(ps.drop_last(), k);
    }
}

pub proof fn lemma_map_of_pairs_found(ps: Seq<(Seq<u8>, Seq<u8>)>, k: Seq<u8>, j: int)
    requires
        0 <= j < ps.len(),
        ps[j].0 == k,
        forall|i: int| j < i < ps.len() ==> (#[trigger] ps[i]).0 != k,
    ensures
        map_of_pairs(ps).contains_key(k),
        map_of_pairs(ps)[k] == ps[j].1,
    decreases ps.len(),
{
    if j < ps.len() - 1 {
        lemma_map_of_pairs_found(ps.drop_last(), k, j);
    }
}

/// Every listed name is bound in the mapping.
pub proof fn lemma_map_of_pairs_contains(ps: Seq<(Seq<u8>, Seq<u8>)>, j: int)
    requires
        0 <= j < ps.len(),
    ensures
        map_of_pairs(ps).contains_key(ps[j].0),
    decreases ps.len(),
{
    if j < ps.len() - 1 {
        lemma_map_of_pairs_contains(ps.drop_last(), j);
    }
}

pub proof fn lemma_map_of_pairs_push(ps: Seq<(Seq<u8>, Seq<u8>)>, k: Seq<u8>, v: Seq<u8>)
    ensures
        map_of_pairs(ps.push((k, v))) == map_of_pairs(ps).insert(k, v),
{
    assert(ps.push((k, v)).drop_last() =~= ps);
}

pub proof fn lemma_map_of_pairs_update(ps: Seq<(Seq<u8>, Seq<u8>)>, j: int, k: Seq<u8>, v: Seq<u8>)
    requires
        0 <= j < ps.len(),
        ps[j].0 == k,
        forall|i: int| j < i < ps.len() ==> (#[trigger] ps[i]).0 != k,
    ensures
        map_of_pairs(ps.update(j, (k, v))) == map_of_pairs(ps).insert(k, v),
    decreases ps.len(),
{
    let psu = ps.update(j, (k, v));
    if j == ps.len() - 1 {
        assert(psu.drop_last() =~= ps.drop_last());
        assert(psu.last() == (k, v));
        assert(map_of_pairs(ps.drop_last()).insert(k, ps.last().1).insert(k, v)
            =~= map_of_pairs(ps.drop_last()).insert(k, v));
    } else {
        let lastp = ps.last();
        assert(lastp.0 != k);
        assert(psu.drop_last() =~= ps.drop_last().update(j, (k, v)));
        assert(psu.last() == lastp);
        lemma_map_of_pairs_update(ps.drop_last(), j, k, v);
        assert(map_of_pairs(ps.drop_last()).insert(k, v).insert(lastp.0, lastp.1)
            =~= map_of_pairs(ps.drop_last()).insert(lastp.0, lastp.1).insert(k, v));
    }
}

/// Looks a name up among the entries; a later entry shadows an earlier
/// one of the same name, as insertion order demands.
pub(crate) fn lookup_value<'a>(entries: &'a Vec<KeyValuePair>, name: &[u8]) -> (r: Option<
    &'a Vec<u8>,
>)
    ensures
        match r {
            Some(v) => map_of_pairs(pairs_view(entries@)).contains_key(name@) && v@ == map_of_pairs(
                pairs_view(entries@),
            )[name@],
            None => !map_of_pairs(pairs_view(entries@)).contains_key(name@),
        },
{
    let n = entries.len();
    let mut i: usize = n;
    while i > 0
        invariant
            i <= n,
            n == entries@.len(),
            forall|j: int| i <= j < n ==> (#[trigger] pairs_view(entries@)[j]).0 != name@,
        decreases i,
    {
        i = i - 1;
        if bytes_eq(entries[i].name.as_slice(), name) {
            proof {
                lemma_map_of_pairs_found(pairs_view(entries@), name@, i as int);
            }
            return Some(&entries[i].value);
        }
        proof {
            assert(pairs_view(entries@)[i as int].0 == entries@[i as int].name@);
        }
    }
    proof {
        lemma_map_of_pairs_not_found(pairs_view(entries@), name@);
    }
    None
}

/// Adds a binding, replacing the binding an earlier entry of the same
/// name made, so the entries always read as their mapping.
pub(crate) fn insert_pair(entries: &mut Vec<KeyValuePair>, name: Vec<u8>, value: Vec<u8>)
    ensures
        map_of_pairs(pairs_view(final(entries)@)) == map_of_pairs(
            pairs_view(old(entries)@),
        ).insert(name@, value@),
        pairs_distinct(pairs_view(old(entries)@)) ==> pairs_distinct(pairs_view(final(entries)@)),
{
    let n = entries.len();
    let ghost gname = name@;
    let ghost gvalue = value@;
    let mut i: usize = n;
    while i > 0
        invariant
            i <= n,
            n == entries@.len(),
            entries@ == old(entries)@,
            name@ == gname,
            value@ == gvalue,
            forall|j: int| i <= j < n ==> (#[trigger] pairs_view(entries@)[j]).0 != gname,
        decreases i,
    {
        i = i - 1;
        if bytes_eq(entries[i].name.as_slice(), name.as_slice()) {
            proof {
                assert(pairs_view(entries@)[i as int].0 == name@);
            }
            let ghost old_pairs = pairs_view(entries@);
            entries[i] = KeyValuePair { name, value };
            proof {
                assert(entries@[i as int].name@ == gname);
                assert(entries@[i as int].value@ == gvalue);
                assert(pairs_view(entries@) =~= old_pairs.update(i as int, (gname, gvalue)));
                lemma_map_of_pairs_update(old_pairs, i as int, gname, gvalue);
                if pairs_distinct(old_pairs) {
                    assert forall|a: int, b: int|
                        0 <= a < b < pairs_view(entries@).len() implies (#[trigger] pairs_view(
                        entries@,
                    )[a]).0 != (#[trigger] pairs_view(entries@)[b]).0 by {
                        assert(old_pairs[a].0 != old_pairs[b].0);
                        assert(old_pairs[i as int].0 == gname);
                    }
                }
            }
            return ;
        }
        proof {
            assert(pairs_view(entries@)[i as int].0 == entries@[i as int].name@);
        }
    }
    let ghost old_pairs = pairs_view(entries@);
    let ghost kv = (name@, value@);
    entries.push(KeyValuePair { name, value });
    proof {
        assert(pairs_view(entries@) =~= old_pairs.push(kv));
        lemma_map_of_pairs_push(old_pairs, kv.0, kv.1);
        if pairs_distinct(old_pairs) {
            assert forall|a: int, b: int|
                0 <= a < b < pairs_view(entries@).len() implies (#[trigger] pairs_view(
                entries@,
            )[a]).0 != (#[trigger] pairs_view(entries@)[b]).0 by {
                if b < old_pairs.len() {
                    assert(old_pairs[a].0 != old_pairs[b].0);
                } else {
                    assert(old_pairs[a].0 != gname);
                }
            }
        }
    }
}

/// The binding one plain `name = value` line makes: none unless the line
/// holds exactly one equals sign, both sides trimmed of whitespace.
pub open spec fn kv_line_pairs(l: Seq<u8>) -> Seq<(Seq<u8>, Seq<u8>)> {
    if count_byte_spec(l, 0x3D) == 1 {
        seq![
            (
                trim_spec(l.take(find_byte_spec(l, 0x3D))),
                trim_spec(l.skip(find_byte_spec(l, 0x3D) + 1)),
            ),
        ]
    } else {
        Seq::<(Seq<u8>, Seq<u8>)>::empty()
    }
}

/// The bindings of a whole text, line by line.
pub open spec fn kv_pairs_of_text(s: Seq<u8>) -> Seq<(Seq<u8>, Seq<u8>)>
    decreases s.len(),
        via kv_pairs_of_text_decreases
{
    if s.len() == 0 {
        Seq::<(Seq<u8>, Seq<u8>)>::empty()
    } else {
        let e = find_byte_spec(s, 0x0A);
        if e >= s.len() {
            kv_line_pairs(s)
        } else {
            kv_line_pairs(s.take(e)) + kv_pairs_of_text(s.skip(e + 1))
        }
    }
}

#[via_fn]
proof fn kv_pairs_of_text_decreases(s: Seq<u8>) {
    if s.len() > 0 {
        crate::bytes::lemma_find_byte_facts(s, 0x0A);
    }
}

/// A plain collection of `name = value` bindings parsed from text, as
/// the console's key files are laid out.
pub struct KeyValueSet {
    keys: Vec<KeyValuePair>,
}

impl KeyValueSet {
    /// The mapping the set holds.
    pub closed spec fn view_map(&self) -> Map<Seq<u8>, Seq<u8>> {
        map_of_pairs(pairs_view(self.keys@))
    }

    /// Parses a text of `name = value` lines. A line without exactly one
    /// equals sign binds nothing; both sides are trimmed.
    pub fn new(input: &str) -> (r: KeyValueSet)
        ensures
            r.view_map() == map_of_pairs(kv_pairs_of_text(input.spec_bytes())),
    {
        let v = input.as_bytes();
        let n = v.len();
        let mut keys: Vec<KeyValuePair> = Vec::new();
        let mut pos: usize = 0;
        let ghost mut done: Seq<(Seq<u8>, Seq<u8>)> = Seq::empty();
        proof {
            assert(v@.skip(0) =~= v@);
            assert(done + kv_pairs_of_text(v@) =~= kv_pairs_of_text(v@));
        }
        while pos < n
            invariant
                pos <= n,
                n == v@.len(),
                map_of_pairs(pairs_view(keys@)) == map_of_pairs(done),
                done + kv_pairs_of_text(v@.skip(pos as int)) == kv_pairs_of_text(v@),
            decreases n - pos,
        {
            let e = find_byte(v, pos, 0x0A);
            let next = if e < n {
                e + 1
            } else {
                n
            };
            let ghost rest = v@.skip(pos as int);
            let ghost line = v@.subrange(pos as int, e as int);
            proof {
                assert(rest.len() > 0);
                assert(find_byte_spec(rest, 0x0A) == e - pos);
                if e < n {
                    assert(rest.take(e - pos) =~= line);
                    assert(rest.skip(e - pos + 1) =~= v@.skip(next as int));
                } else {
                    assert(rest =~= line);
                    assert(v@.skip(next as int) =~= Seq::<u8>::empty());
                }
                assert(kv_pairs_of_text(rest) == kv_line_pairs(line) + kv_pairs_of_text(
                    v@.skip(next as int),
                )) by {
                    if e >= n {
                        assert(kv_pairs_of_text(line) =~= kv_line_pairs(line) + kv_pairs_of_text(
                            Seq::<u8>::empty(),
                        ));
                    }
                }
            }
            let line_slice = vstd::slice::slice_subrange(v, pos, e);
            if count_byte(line_slice, 0x3D) == 1 {
                let eq = find_byte(line_slice, 0, 0x3D);
                let llen = line_slice.len();
                proof {
                    assert(line_slice@.skip(0) =~= line_slice@);
                    if eq == llen {
                        lemma_count_byte_none(line_slice@, 0x3D);
                        assert(false);
                    }
                }
                let (a0, a1) = trim_range(line_slice, 0, eq);
                let (b0, b1) = trim_range(line_slice, eq + 1, llen);
                let name = crate::bytes::copy_slice_range(line_slice, a0, a1);
                let value = crate::bytes::copy_slice_range(line_slice, b0, b1);
                proof {
                    assert(line.take(find_byte_spec(line, 0x3D)) =~= line_slice@.subrange(
                        0,
                        eq as int,
                    ));
                    assert(line.skip(find_byte_spec(line, 0x3D) + 1) =~= line_slice@.subrange(
                        eq + 1,
                        llen as int,
                    ));
                    assert(kv_line_pairs(line) =~= seq![(name@, value@)]);
                }
                insert_pair(&mut keys, name, value);
                proof {
                    lemma_map_of_pairs_push(done, kv_line_pairs(line)[0].0, kv_line_pairs(line)[0].1);
                    assert(done.push(kv_line_pairs(line)[0]) =~= done + kv_line_pairs(line));
                    done = done + kv_line_pairs(line);
                    assert(done + kv_pairs_of_text(v@.skip(next as int)) =~= kv_pairs_of_text(v@));
                }
            } else {
                proof {
                    assert(kv_line_pairs(line) =~= Seq::<(Seq<u8>, Seq<u8>)>::empty());
                    assert(done + kv_pairs_of_text(v@.skip(next as int)) =~= kv_pairs_of_text(v@));
                }
            }
            pos = next;
        }
        proof {
            assert(v@.skip(n as int) =~= Seq::<u8>::empty());
            assert(done =~= kv_pairs_of_text(v@));
        }
        KeyValueSet { keys }
    }

    /// The value bound to `key`, if any.
    pub fn get(&self, key: &str) -> (r: Option<&Vec<u8>>)
        ensures
            match r {
                Some(v) => self.view_map().contains_key(key.spec_bytes()) && v@ == self.view_map()[
                    key.spec_bytes()
                ],
                None => !self.view_map().contains_key(key.spec_bytes()),
            },
    {
        lookup_value(&self.keys, key.as_bytes())
    }
}

/// A byte that occurs nowhere in a sequence is counted zero times.
pub proof fn lemma_count_byte_none(s: Seq<u8>, b: u8)
    requires
        forall|j: int| 0 <= j < s.len() ==> s[j] != b,
    ensures
        count_byte_spec(s, b) == 0,
    decreases s.len(),
{
    if s.len() > 0 {
        lemma_count_byte_none(s.skip(1), b);
    }
}

} // verus!
