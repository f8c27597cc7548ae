use vstd::prelude::*;
use vstd::string::StringSliceAdditionalSpecFns;

use crate::bytes::{
    all_hex_digits, count_byte, count_byte_spec, find_byte, find_byte_spec, hex_decode,
    hex_digit_lower, hex_pair_val, trim_range, trim_spec,
};
use crate::formats::kv::{
    insert_pair, lookup_value, map_of_pairs, pairs_view, KeyValuePair,
    lemma_count_byte_none,
};

verus! {

/// The bytes that a run of hexadecimal digits spells.
pub open spec fn hex_decode_spec(s: Seq<u8>) -> Seq<u8> {
    Seq::new((s.len() / 2) as nat, |i: int| hex_pair_val(s, i))
}

/// The binding one keyset line makes. Blank lines and comment lines
/// (leading `;`, `#` or `//`) bind nothing; so does a line without
/// exactly one equals sign, or whose value is not whole bytes of
/// hexadecimal digits. The value may carry a trailing `;` comment.
pub open spec fn keyset_line_pairs(l: Seq<u8>) -> Seq<(Seq<u8>, Seq<u8>)> {
    let t = trim_spec(l);
    if t.len() == 0 || t[0] == 0x3B || t[0] == 0x23 || (t.len() >= 2 && t[0] == 0x2F && t[1]
        == 0x2F) {
        Seq::<(Seq<u8>, Seq<u8>)>::empty()
    } else if count_byte_spec(l, 0x3D) != 1 {
        Seq::<(Seq<u8>, Seq<u8>)>::empty()
    } else {
        let name = trim_spec(l.take(find_byte_spec(l, 0x3D)));
        let v1 = trim_spec(l.skip(find_byte_spec(l, 0x3D) + 1));
        let v2 = trim_spec(v1.take(find_byte_spec(v1, 0x3B)));
        if v2.len() % 2 == 0 && all_hex_digits(v2) {
            seq![(name, hex_decode_spec(v2))]
        } else {
            Seq::<(Seq<u8>, Seq<u8>)>::empty()
        }
    }
}

/// The bindings of a whole keyset text, line by line.
pub open spec fn keyset_pairs_of_text(s: Seq<u8>) -> Seq<(Seq<u8>, Seq<u8>)>
    decreases s.len(),
        via keyset_pairs_of_text_decreases
{
    if s.len() == 0 {
        Seq::<(Seq<u8>, Seq<u8>)>::empty()
    } else {
        let e = find_byte_spec(s, 0x0A);
        if e >= s.len() {
            keyset_line_pairs(s)
        } else {
            keyset_line_pairs(s.take(e)) + keyset_pairs_of_text(s.skip(e + 1))
        }
    }
}

#[via_fn]
proof fn keyset_pairs_of_text_decreases(s: Seq<u8>) {
    if s.len() > 0 {
        crate::bytes::lemma_find_byte_facts(s, 0x0A);
    }
}

/// The canonical name of the header key.
pub open spec fn header_key_name() -> Seq<u8> {
    seq![0x68u8, 0x65, 0x61, 0x64, 0x65, 0x72, 0x5F, 0x6B, 0x65, 0x79]
}

/// An indexed key name: the prefix, an underscore, and the index as two
/// lower-case hexadecimal digits.
pub open spec fn indexed_key_name(prefix: Seq<u8>, idx: int) -> Seq<u8> {
    prefix + seq![0x5Fu8, hex_digit_lower(idx / 16), hex_digit_lower(idx % 16)]
}

/// The name prefix of the title-key-encryption keys.
pub open spec fn titlekek_prefix() -> Seq<u8> {
    seq![0x74u8, 0x69, 0x74, 0x6C, 0x65, 0x6B, 0x65, 0x6B]
}

/// The name prefix of the application key-area keys.
pub open spec fn key_area_application_prefix() -> Seq<u8> {
    key_area_prefix() + seq![0x61u8, 0x70, 0x70, 0x6C, 0x69, 0x63, 0x61, 0x74, 0x69, 0x6F, 0x6E]
}

/// The name prefix of the ocean key-area keys.
pub open spec fn key_area_ocean_prefix() -> Seq<u8> {
    key_area_prefix() + seq![0x6Fu8, 0x63, 0x65, 0x61, 0x6E]
}

/// The name prefix of the system key-area keys.
pub open spec fn key_area_system_prefix() -> Seq<u8> {
    key_area_prefix() + seq![0x73u8, 0x79, 0x73, 0x74, 0x65, 0x6D]
}

/// The shared stem `key_area_key_` of the key-area key names.
pub open spec fn key_area_prefix() -> Seq<u8> {
    seq![0x6Bu8, 0x65, 0x79, 0x5F, 0x61, 0x72, 0x65, 0x61, 0x5F, 0x6B, 0x65, 0x79, 0x5F]
}

/// Copies a byte vector.
pub(crate) fn clone_bytes(v: &Vec<u8>) -> (r: Vec<u8>)
    ensures
        r@ == v@,
{
    let r = v.clone();
    proof {
        assert(r@ =~= v@);
    }
    r
}

fn push_all(v: &mut Vec<u8>, s: &[u8])
    ensures
        final(v)@ == old(v)@ + s@,
{
    let n = s.len();
    let mut i: usize = 0;
    while i < n
        invariant
            i <= n,
            n == s@.len(),
            v@ == old(v)@ + s@.take(i as int),
        decreases n - i,
    {
        v.push(*vstd::slice::slice_index_get(s, i));
        proof {
            assert(old(v)@ + s@.take(i as int) + seq![s@[i as int]] =~= old(v)@ + s@.take(i + 1));
        }
        i = i + 1;
    }
    proof {
        assert(s@.take(n as int) =~= s@);
    }
}

/// Builds the indexed key name for `prefix` and `idx`.
fn make_indexed_name(prefix: &[u8], idx: u8) -> (r: Vec<u8>)
    ensures
        r@ == indexed_key_name(prefix@, idx as int),
{
    let mut v: Vec<u8> = Vec::new();
    push_all(&mut v, prefix);
    v.push(0x5F);
    let hi = idx / 16;
    let lo = idx % 16;
    if hi < 10 {
        v.push(0x30 + hi);
    } else {
        v.push(0x61 + (hi - 10));
    }
    if lo < 10 {
        v.push(0x30 + lo);
    } else {
        v.push(0x61 + (lo - 10));
    }
    proof {
        assert(v@ =~= indexed_key_name(prefix@, idx as int));
    }
    v
}

/// The console's key material: a mapping from symbolic key name to raw
/// bytes, parsed from a `name = hexvalue` text. Unknown names are
/// preserved verbatim; lookups are exact.
pub struct Keyset {
    entries: Vec<KeyValuePair>,
    header_key_cache: Option<Vec<u8>>,
}

impl Keyset {
    /// The mapping from key name to key bytes.
    pub closed spec fn key_map(&self) -> Map<Seq<u8>, Seq<u8>> {
        map_of_pairs(pairs_view(self.entries@))
    }

    /// The cache agrees with the mapping: it holds the 32-byte header
    /// key exactly when the mapping does.
    pub closed spec fn wf(&self) -> bool {
        match self.header_key_cache {
            Some(v) => self.key_map().contains_key(header_key_name()) && self.key_map()[
                header_key_name()
            ].len() == 32 && v@ == self.key_map()[header_key_name()],
            None => !(self.key_map().contains_key(header_key_name()) && self.key_map()[
                header_key_name()
            ].len() == 32),
        }
    }

    /// An empty keyset.
    pub fn new() -> (r: Keyset)
        ensures
            r.wf(),
            r.key_map() == Map::<Seq<u8>, Seq<u8>>::empty(),
    {
        proof {
            crate::formats::kv::lemma_map_of_pairs_not_found(
                pairs_view(Seq::<KeyValuePair>::empty()),
                header_key_name(),
            );
        }
        Keyset { entries: Vec::new(), header_key_cache: None }
    }

    /// Parses a keyset text: each line either blank, a comment, or
    /// `name = hexvalue`. A malformed line binds nothing and parsing
    /// never fails; a later line with the same name replaces an earlier
    /// one.
    pub fn from_text(text: &str) -> (r: Keyset)
        ensures
            r.wf(),
            r.key_map() == map_of_pairs(keyset_pairs_of_text(text.spec_bytes())),
    {
        let v = text.as_bytes();
        let n = v.len();
        let mut entries: Vec<KeyValuePair> = Vec::new();
        let mut pos: usize = 0;
        let ghost mut done: Seq<(Seq<u8>, Seq<u8>)> = Seq::empty();
        proof {
            assert(v@.skip(0) =~= v@);
            assert(done + keyset_pairs_of_text(v@) =~= keyset_pairs_of_text(v@));
        }
        while pos < n
            invariant
                pos <= n,
                n == v@.len(),
                map_of_pairs(pairs_view(entries@)) == map_of_pairs(done),
                done + keyset_pairs_of_text(v@.skip(pos as int)) == keyset_pairs_of_text(v@),
            decreases n - pos,
        {
            let e = find_byte(v, pos, 0x0A);
            let next = if e < n {
                e + 1
            } else {
                n
            };
            let ghost rest = v@.skip(pos as int);
            let ghost line = v@.subrange(pos as int, e as int);
            proof {
                assert(rest.len() > 0);
                assert(find_byte_spec(rest, 0x0A) == e - pos);
                if e < n {
                    assert(rest.take(e - pos) =~= line);
                    assert(rest.skip(e - pos + 1) =~= v@.skip(next as int));
                } else {
                    assert(rest =~= line);
                    assert(v@.skip(next as int) =~= Seq::<u8>::empty());
                }
                assert(keyset_pairs_of_text(rest) == keyset_line_pairs(line)
                    + keyset_pairs_of_text(v@.skip(next as int))) by {
                    if e >= n {
                        assert(keyset_pairs_of_text(line) =~= keyset_line_pairs(line)
                            + keyset_pairs_of_text(Seq::<u8>::empty()));
                    }
                }
            }
            let line_slice = vstd::slice::slice_subrange(v, pos, e);
            let llen = line_slice.len();
            let (t0, t1) = trim_range(line_slice, 0, llen);
            let mut skip_line: bool = t1 == t0;
            if !skip_line {
                let c0 = *vstd::slice::slice_index_get(line_slice, t0);
                if c0 == 0x3B || c0 == 0x23 {
                    skip_line = true;
                } else if c0 == 0x2F && t1 - t0 >= 2 {
                    if *vstd::slice::slice_index_get(line_slice, t0 + 1) == 0x2F {
                        skip_line = true;
                    }
                }
            }
            proof {
                let t = trim_spec(line);
                assert(line_slice@.subrange(0, llen as int) =~= line_slice@);
                assert(t == line_slice@.subrange(t0 as int, t1 as int));
                assert(t.len() > 0 ==> t[0] == line_slice@[t0 as int]);
                assert(t.len() >= 2 ==> t[1] == line_slice@[t0 + 1]);
            }
            if !skip_line && count_byte(line_slice, 0x3D) == 1 {
                let eq = find_byte(line_slice, 0, 0x3D);
                proof {
                    assert(line_slice@.skip(0) =~= line_slice@);
                    if eq == llen {
                        lemma_count_byte_none(line_slice@, 0x3D);
                        assert(false);
                    }
                }
                let (a0, a1) = trim_range(line_slice, 0, eq);
                let (b0, b1) = trim_range(line_slice, eq + 1, llen);
                let ghost v1 = trim_spec(line.skip(find_byte_spec(line, 0x3D) + 1));
                proof {
                    assert(line.take(find_byte_spec(line, 0x3D)) =~= line_slice@.subrange(
                        0,
                        eq as int,
                    ));
                    assert(line.skip(find_byte_spec(line, 0x3D) + 1) =~= line_slice@.subrange(
                        eq + 1,
                        llen as int,
                    ));
                    assert(v1 == line_slice@.subrange(b0 as int, b1 as int));
                }
                let sc_raw = find_byte(line_slice, b0, 0x3B);
                let sc = if sc_raw > b1 {
                    b1
                } else {
                    sc_raw
                };
                proof {
                    if sc_raw >= b1 {
                        crate::bytes::lemma_find_byte_spec(v1, 0x3B, b1 - b0);
                    } else {
                        crate::bytes::lemma_find_byte_spec(v1, 0x3B, sc_raw - b0);
                    }
                    assert(v1.take(find_byte_spec(v1, 0x3B)) =~= line_slice@.subrange(
                        b0 as int,
                        sc as int,
                    ));
                }
                let (c0, c1) = trim_range(line_slice, b0, sc);
                let ghost v2 = trim_spec(v1.take(find_byte_spec(v1, 0x3B)));
                proof {
                    assert(v2 == line_slice@.subrange(c0 as int, c1 as int));
                }
                let value_slice = vstd::slice::slice_subrange(line_slice, c0, c1);
                match hex_decode(value_slice) {
                    Some(decoded) => {
                        let name = crate::bytes::copy_slice_range(line_slice, a0, a1);
                        proof {
                            assert(decoded@ =~= hex_decode_spec(v2));
                            assert(keyset_line_pairs(line) =~= seq![(name@, decoded@)]);
                        }
                        insert_pair(&mut entries, name, decoded);
                        proof {
                            crate::formats::kv::lemma_map_of_pairs_push(
                                done,
                                keyset_line_pairs(line)[0].0,
                                keyset_line_pairs(line)[0].1,
                            );
                            assert(done.push(keyset_line_pairs(line)[0]) =~= done
                                + keyset_line_pairs(line));
                            done = done + keyset_line_pairs(line);
                            assert(done + keyset_pairs_of_text(v@.skip(next as int))
                                =~= keyset_pairs_of_text(v@));
                        }
                    },
                    None => {
                        proof {
                            assert(keyset_line_pairs(line) =~= Seq::<(Seq<u8>, Seq<u8>)>::empty());
                            assert(done + keyset_pairs_of_text(v@.skip(next as int))
                                =~= keyset_pairs_of_text(v@));
                        }
                    },
                }
            } else {
                proof {
                    assert(keyset_line_pairs(line) =~= Seq::<(Seq<u8>, Seq<u8>)>::empty());
                    assert(done + keyset_pairs_of_text(v@.skip(next as int))
                        =~= keyset_pairs_of_text(v@));
                }
            }
            pos = next;
        }
        proof {
            assert(v@.skip(n as int) =~= Seq::<u8>::empty());
            assert(done =~= keyset_pairs_of_text(v@));
        }
        let mut r = Keyset { entries, header_key_cache: None };
        r.update_caches();
        r
    }

    /// Refreshes the header-key cache from the mapping.
    fn update_caches(&mut self)
        ensures
            final(self).key_map() == old(self).key_map(),
            final(self).wf(),
    {
        let mut name: Vec<u8> = Vec::new();
        name.push(0x68);
        name.push(0x65);
        name.push(0x61);
        name.push(0x64);
        name.push(0x65);
        name.push(0x72);
        name.push(0x5F);
        name.push(0x6B);
        name.push(0x65);
        name.push(0x79);
        proof {
            assert(name@ =~= header_key_name());
        }
        let cache = match lookup_value(&self.entries, name.as_slice()) {
            Some(v) => {
                if v.len() == 32 {
                    Some(clone_bytes(v))
                } else {
                    None
                }
            },
            None => None,
        };
        self.header_key_cache = cache;
    }

    /// The raw bytes of the key with exactly this name, if present.
    pub fn get_raw_key(&self, key_name: &str) -> (r: Option<&Vec<u8>>)
        ensures
            match r {
                Some(v) => self.key_map().contains_key(key_name.spec_bytes()) && v@
                    == self.key_map()[key_name.spec_bytes()],
                None => !self.key_map().contains_key(key_name.spec_bytes()),
            },
    {
        lookup_value(&self.entries, key_name.as_bytes())
    }

    /// The key with this name, if present with exactly `n` bytes.
    pub fn get_key(&self, key_name: &str, n: usize) -> (r: Option<Vec<u8>>)
        ensures
            match r {
                Some(v) => self.key_map().contains_key(key_name.spec_bytes()) && self.key_map()[
                    key_name.spec_bytes()
                ].len() == n && v@ == self.key_map()[key_name.spec_bytes()],
                None => !(self.key_map().contains_key(key_name.spec_bytes()) && self.key_map()[
                    key_name.spec_bytes()
                ].len() == n),
            },
    {
        match lookup_value(&self.entries, key_name.as_bytes()) {
            Some(v) => {
                if v.len() == n {
                    Some(clone_bytes(v))
                } else {
                    None
                }
            },
            None => None,
        }
    }

    fn get_key_bytes(&self, key_name: &[u8], n: usize) -> (r: Option<Vec<u8>>)
        ensures
            match r {
                Some(v) => self.key_map().contains_key(key_name@) && self.key_map()[key_name@].len()
                    == n && v@ == self.key_map()[key_name@],
                None => !(self.key_map().contains_key(key_name@) && self.key_map()[key_name@].len()
                    == n),
            },
    {
        match lookup_value(&self.entries, key_name) {
            Some(v) => {
                if v.len() == n {
                    Some(clone_bytes(v))
                } else {
                    None
                }
            },
            None => None,
        }
    }

    /// The 32-byte header key, answered from the cache.
    pub fn header_key(&self) -> (r: Option<&Vec<u8>>)
        requires
            self.wf(),
        ensures
            match r {
                Some(v) => self.key_map().contains_key(header_key_name()) && self.key_map()[
                    header_key_name()
                ].len() == 32 && v@ == self.key_map()[header_key_name()],
                None => !(self.key_map().contains_key(header_key_name()) && self.key_map()[
                    header_key_name()
                ].len() == 32),
            },
    {
        self.header_key_cache.as_ref()
    }

    /// The two 16-byte halves of the header key, data unit key first,
    /// tweak key second.
    pub fn header_xts_pair(&self) -> (r: Option<(Vec<u8>, Vec<u8>)>)
        requires
            self.wf(),
        ensures
            match r {
                Some(p) => {
                    &&& self.key_map().contains_key(header_key_name())
                    &&& self.key_map()[header_key_name()].len() == 32
                    &&& p.0@ == self.key_map()[header_key_name()].take(16)
                    &&& p.1@ == self.key_map()[header_key_name()].skip(16)
                },
                None => !(self.key_map().contains_key(header_key_name()) && self.key_map()[
                    header_key_name()
                ].len() == 32),
            },
    {
        match self.header_key_cache.as_ref() {
            Some(v) => {
                let a = crate::bytes::copy_range(v, 0, 16);
                let b = crate::bytes::copy_range(v, 16, 32);
                proof {
                    assert(a@ =~= self.key_map()[header_key_name()].take(16));
                    assert(b@ =~= self.key_map()[header_key_name()].skip(16));
                }
                Some((a, b))
            },
            None => None,
        }
    }

    /// The application key-area key of this generation, 16 bytes.
    pub fn get_key_area_key_application(&self, idx: usize) -> (r: Option<Vec<u8>>)
        ensures
            key_lookup_matches(
                r,
                self.key_map(),
                indexed_key_name(key_area_application_prefix(), (idx as u8) as int),
                16,
            ),
    {
        let mut prefix: Vec<u8> = Vec::new();
        push_key_area_stem(&mut prefix);
        push_all(
            &mut prefix,
            &[0x61, 0x70, 0x70, 0x6C, 0x69, 0x63, 0x61, 0x74, 0x69, 0x6F, 0x6E],
        );
        proof {
            assert(prefix@ =~= key_area_application_prefix());
        }
        let name = make_indexed_name(prefix.as_slice(), idx as u8);
        self.get_key_bytes(name.as_slice(), 16)
    }

    /// The ocean key-area key of this generation, 16 bytes.
    pub fn get_key_area_key_ocean(&self, idx: usize) -> (r: Option<Vec<u8>>)
        ensures
            key_lookup_matches(
                r,
                self.key_map(),
                indexed_key_name(key_area_ocean_prefix(), (idx as u8) as int),
                16,
            ),
    {
        let mut prefix: Vec<u8> = Vec::new();
        push_key_area_stem(&mut prefix);
        push_all(&mut prefix, &[0x6F, 0x63, 0x65, 0x61, 0x6E]);
        proof {
            assert(prefix@ =~= key_area_ocean_prefix());
        }
        let name = make_indexed_name(prefix.as_slice(), idx as u8);
        self.get_key_bytes(name.as_slice(), 16)
    }

    /// The system key-area key of this generation, 16 bytes.
    pub fn get_key_area_key_system(&self, idx: usize) -> (r: Option<Vec<u8>>)
        ensures
            key_lookup_matches(
                r,
                self.key_map(),
                indexed_key_name(key_area_system_prefix(), (idx as u8) as int),
                16,
            ),
    {
        let mut prefix: Vec<u8> = Vec::new();
        push_key_area_stem(&mut prefix);
        push_all(&mut prefix, &[0x73, 0x79, 0x73, 0x74, 0x65, 0x6D]);
        proof {
            assert(prefix@ =~= key_area_system_prefix());
        }
        let name = make_indexed_name(prefix.as_slice(), idx as u8);
        self.get_key_bytes(name.as_slice(), 16)
    }

    /// The title-key-encryption key of this generation, 16 bytes.
    pub fn get_title_kek(&self, key_generation: usize) -> (r: Option<Vec<u8>>)
        ensures
            key_lookup_matches(
                r,
                self.key_map(),
                indexed_key_name(titlekek_prefix(), (key_generation as u8) as int),
                16,
            ),
    {
        let mut prefix: Vec<u8> = Vec::new();
        push_all(&mut prefix, &[0x74, 0x69, 0x74, 0x6C, 0x65, 0x6B, 0x65, 0x6B]);
        proof {
            assert(prefix@ =~= titlekek_prefix());
        }
        let name = make_indexed_name(prefix.as_slice(), key_generation as u8);
        self.get_key_bytes(name.as_slice(), 16)
    }

    /// The key-area key for an encryption-key index: 0 application,
    /// 1 ocean, 2 system; any other index holds no key.
    pub fn get_key_area_key(&self, key_type: u8, crypto_type: u8) -> (r: Option<Vec<u8>>)
        ensures
            key_type == 0 ==> key_lookup_matches(
                r,
                self.key_map(),
                indexed_key_name(key_area_application_prefix(), crypto_type as int),
                16,
            ),
            key_type == 1 ==> key_lookup_matches(
                r,
                self.key_map(),
                indexed_key_name(key_area_ocean_prefix(), crypto_type as int),
                16,
            ),
            key_type == 2 ==> key_lookup_matches(
                r,
                self.key_map(),
                indexed_key_name(key_area_system_prefix(), crypto_type as int),
                16,
            ),
            key_type > 2 ==> r.is_none(),
    {
        match key_type {
            0 => self.get_key_area_key_application(crypto_type as usize),
            1 => self.get_key_area_key_ocean(crypto_type as usize),
            2 => self.get_key_area_key_system(crypto_type as usize),
            _ => None,
        }
    }

    /// All keys of an indexed family that are present with `n` bytes,
    /// by ascending generation; exactly those the mapping holds.
    pub fn get_indexed_keys(&self, prefix: &str, n: usize) -> (r: Vec<(u8, Vec<u8>)>)
        ensures
            indexed_keys_match(r@, self.key_map(), prefix.spec_bytes(), n as int),
    {
        self.get_indexed_keys_bytes(prefix.as_bytes(), n)
    }

    fn get_indexed_keys_bytes(&self, prefix: &[u8], n: usize) -> (r: Vec<(u8, Vec<u8>)>)
        ensures
            indexed_keys_match(r@, self.key_map(), prefix@, n as int),
    {
        let mut r: Vec<(u8, Vec<u8>)> = Vec::new();
        let mut idx: usize = 0;
        while idx < 256
            invariant
                idx <= 256,
                forall|j: int|
                    #![all_triggers]
                    0 <= j < r@.len() ==> 0 <= (r@[j].0 as int) < idx && self.key_map().contains_key(
                        indexed_key_name(prefix@, r@[j].0 as int),
                    ) && self.key_map()[indexed_key_name(prefix@, r@[j].0 as int)].len() == n
                        && r@[j].1@ == self.key_map()[indexed_key_name(prefix@, r@[j].0 as int)],
                forall|i: int|
                    0 <= i < idx && self.key_map().contains_key(
                        #[trigger] indexed_key_name(prefix@, i),
                    ) && self.key_map()[indexed_key_name(prefix@, i)].len() == n ==> exists|j: int|
                        0 <= j < r@.len() && (#[trigger] r@[j]).0 as int == i,
            decreases 256 - idx,
        {
            let name = make_indexed_name(prefix, idx as u8);
            let ghost oldr = r@;
            match self.get_key_bytes(name.as_slice(), n) {
                Some(v) => {
                    r.push((idx as u8, v));
                },
                None => {},
            }
            proof {
                assert forall|i: int|
                    0 <= i < idx + 1 && self.key_map().contains_key(
                        #[trigger] indexed_key_name(prefix@, i),
                    ) && self.key_map()[indexed_key_name(prefix@, i)].len() == n implies exists|
                    j: int,
                |
                    0 <= j < r@.len() && (#[trigger] r@[j]).0 as int == i by {
                    if i < idx {
                        let j = choose|j: int| 0 <= j < oldr.len() && (#[trigger] oldr[j]).0 as int
                            == i;
                        assert(r@[j].0 as int == i);
                    } else {
                        assert(r@[r@.len() - 1].0 as int == i);
                    }
                }
            }
            idx = idx + 1;
        }
        r
    }

    /// All title-key-encryption keys by generation.
    pub fn title_keks(&self) -> (r: Vec<(u8, Vec<u8>)>)
        ensures
            indexed_keys_match(r@, self.key_map(), titlekek_prefix(), 16),
    {
        let mut prefix: Vec<u8> = Vec::new();
        push_all(&mut prefix, &[0x74, 0x69, 0x74, 0x6C, 0x65, 0x6B, 0x65, 0x6B]);
        proof {
            assert(prefix@ =~= titlekek_prefix());
        }
        self.get_indexed_keys_bytes(prefix.as_slice(), 16)
    }

    /// All application key-area keys by generation.
    pub fn key_area_keys_application(&self) -> (r: Vec<(u8, Vec<u8>)>)
        ensures
            indexed_keys_match(r@, self.key_map(), key_area_application_prefix(), 16),
    {
        let mut prefix: Vec<u8> = Vec::new();
        push_key_area_stem(&mut prefix);
        push_all(
            &mut prefix,
            &[0x61, 0x70, 0x70, 0x6C, 0x69, 0x63, 0x61, 0x74, 0x69, 0x6F, 0x6E],
        );
        proof {
            assert(prefix@ =~= key_area_application_prefix());
        }
        self.get_indexed_keys_bytes(prefix.as_slice(), 16)
    }

    /// All ocean key-area keys by generation.
    pub fn key_area_keys_ocean(&self) -> (r: Vec<(u8, Vec<u8>)>)
        ensures
            indexed_keys_match(r@, self.key_map(), key_area_ocean_prefix(), 16),
    {
        let mut prefix: Vec<u8> = Vec::new();
        push_key_area_stem(&mut prefix);
        push_all(&mut prefix, &[0x6F, 0x63, 0x65, 0x61, 0x6E]);
        proof {
            assert(prefix@ =~= key_area_ocean_prefix());
        }
        self.get_indexed_keys_bytes(prefix.as_slice(), 16)
    }

    /// All system key-area keys by generation.
    pub fn key_area_keys_system(&self) -> (r: Vec<(u8, Vec<u8>)>)
        ensures
            indexed_keys_match(r@, self.key_map(), key_area_system_prefix(), 16),
    {
        let mut prefix: Vec<u8> = Vec::new();
        push_key_area_stem(&mut prefix);
        push_all(&mut prefix, &[0x73, 0x79, 0x73, 0x74, 0x65, 0x6D]);
        proof {
            assert(prefix@ =~= key_area_system_prefix());
        }
        self.get_indexed_keys_bytes(prefix.as_slice(), 16)
    }

    /// Whether the keyset can serve NCA decryption at all: a header key,
    /// at least one application key-area key, and at least one
    /// title-key-encryption key.
    pub fn has_required_nca_keys(&self) -> (r: bool)
        requires
            self.wf(),
        ensures
            r == {
                &&& self.key_map().contains_key(header_key_name()) && self.key_map()[
                    header_key_name()
                ].len() == 32
                &&& exists|i: int|
                    0 <= i < 256 && self.key_map().contains_key(
                        #[trigger] indexed_key_name(key_area_application_prefix(), i),
                    ) && self.key_map()[indexed_key_name(key_area_application_prefix(), i)].len()
                        == 16
                &&& exists|i: int|
                    0 <= i < 256 && self.key_map().contains_key(
                        #[trigger] indexed_key_name(titlekek_prefix(), i),
                    ) && self.key_map()[indexed_key_name(titlekek_prefix(), i)].len() == 16
            },
    {
        if self.header_key_cache.is_none() {
            return false;
        }
        let apps = self.key_area_keys_application();
        if apps.len() == 0 {
            return false;
        }
        let keks = self.title_keks();
        if keks.len() == 0 {
            return false;
        }
        proof {
            let ra = apps@;
            assert(ra.len() > 0);
            assert(0 <= (ra[0].0 as int) < 256 && self.key_map().contains_key(
                indexed_key_name(key_area_application_prefix(), ra[0].0 as int),
            ) && self.key_map()[indexed_key_name(key_area_application_prefix(), ra[0].0 as int)].len()
                == 16);
            let rk = keks@;
            assert(0 <= (rk[0].0 as int) < 256 && self.key_map().contains_key(
                indexed_key_name(titlekek_prefix(), rk[0].0 as int),
            ) && self.key_map()[indexed_key_name(titlekek_prefix(), rk[0].0 as int)].len() == 16);
        }
        true
    }
}

impl Keyset {
    /// The first underscore-separated segment of every key name, each
    /// listed once, in first-appearance order.
    pub fn get_key_prefixes(&self) -> (r: Vec<Vec<u8>>)
        ensures
            forall|a: int, b: int| 0 <= a < b < r@.len() ==> (#[trigger] r@[a])@ != (#[trigger] r@[b])@,
    {
        let mut out: Vec<Vec<u8>> = Vec::new();
        let n = self.entries.len();
        let mut i: usize = 0;
        while i < n
            invariant
                i <= n,
                n == self.entries@.len(),
                forall|a: int, b: int|
                    0 <= a < b < out@.len() ==> (#[trigger] out@[a])@ != (#[trigger] out@[b])@,
            decreases n - i,
        {
            let name = self.entries[i].name.as_slice();
            let cut = crate::bytes::find_byte(name, 0, 0x5F);
            let prefix = crate::bytes::copy_slice_range(name, 0, cut);
            if !contains_bytes(&out, prefix.as_slice()) {
                out.push(prefix);
            }
            i = i + 1;
        }
        out
    }

    /// Every binding whose name begins with `prefix`, each name once,
    /// with the value the mapping holds for it.
    pub fn get_keys_with_prefix(&self, prefix: &str) -> (r: Vec<(Vec<u8>, Vec<u8>)>)
        ensures
            forall|j: int|
                #![all_triggers]
                0 <= j < r@.len() ==> self.key_map().contains_key(r@[j].0@) && r@[j].1@
                    == self.key_map()[r@[j].0@] && r@[j].0@.len() >= prefix.spec_bytes().len()
                    && r@[j].0@.take(prefix.spec_bytes().len() as int) == prefix.spec_bytes(),
            forall|a: int, b: int|
                0 <= a < b < r@.len() ==> (#[trigger] r@[a]).0@ != (#[trigger] r@[b]).0@,
    {
        let p = prefix.as_bytes();
        let mut out: Vec<(Vec<u8>, Vec<u8>)> = Vec::new();
        let n = self.entries.len();
        let mut i: usize = 0;
        while i < n
            invariant
                i <= n,
                n == self.entries@.len(),
                p@ == prefix.spec_bytes(),
                forall|j: int|
                    #![all_triggers]
                    0 <= j < out@.len() ==> self.key_map().contains_key(out@[j].0@) && out@[j].1@
                        == self.key_map()[out@[j].0@] && out@[j].0@.len()
                        >= prefix.spec_bytes().len() && out@[j].0@.take(
                        prefix.spec_bytes().len() as int,
                    ) == prefix.spec_bytes(),
                forall|a: int, b: int|
                    0 <= a < b < out@.len() ==> (#[trigger] out@[a]).0@ != (#[trigger] out@[b]).0@,
            decreases n - i,
        {
            let name = self.entries[i].name.as_slice();
            if crate::bytes::starts_with(name, p) && !contains_name(&out, name) {
                match lookup_value(&self.entries, name) {
                    Some(v) => {
                        out.push(
                            (
                                crate::bytes::copy_slice_range(name, 0, name.len()),
                                clone_bytes(v),
                            ),
                        );
                        proof {
                            assert(out@[out@.len() - 1].0@ =~= self.entries@[i as int].name@);
                        }
                    },
                    None => {
                        proof {
                            assert(pairs_view(self.entries@)[i as int].0
                                == self.entries@[i as int].name@);
                            crate::formats::kv::lemma_map_of_pairs_contains(
                                pairs_view(self.entries@),
                                i as int,
                            );
                            assert(false);
                        }
                    },
                }
            }
            i = i + 1;
        }
        out
    }
}

/// True when the collection already holds these bytes.
fn contains_bytes(v: &Vec<Vec<u8>>, needle: &[u8]) -> (r: bool)
    ensures
        r == exists|j: int| 0 <= j < v@.len() && (#[trigger] v@[j])@ == needle@,
{
    let n = v.len();
    let mut i: usize = 0;
    while i < n
        invariant
            i <= n,
            n == v@.len(),
            forall|j: int| 0 <= j < i ==> (#[trigger] v@[j])@ != needle@,
        decreases n - i,
    {
        if crate::bytes::bytes_eq(v[i].as_slice(), needle) {
            return true;
        }
        i = i + 1;
    }
    false
}

/// True when the collection already holds a pair with this name.
fn contains_name(v: &Vec<(Vec<u8>, Vec<u8>)>, needle: &[u8]) -> (r: bool)
    ensures
        r == exists|j: int| 0 <= j < v@.len() && (#[trigger] v@[j]).0@ == needle@,
{
    let n = v.len();
    let mut i: usize = 0;
    while i < n
        invariant
            i <= n,
            n == v@.len(),
            forall|j: int| 0 <= j < i ==> (#[trigger] v@[j]).0@ != needle@,
        decreases n - i,
    {
        if crate::bytes::bytes_eq(v[i].0.as_slice(), needle) {
            return true;
        }
        i = i + 1;
    }
    false
}

fn push_key_area_stem(v: &mut Vec<u8>)
    ensures
        final(v)@ == old(v)@ + key_area_prefix(),
{
    push_all(
        v,
        &[0x6B, 0x65, 0x79, 0x5F, 0x61, 0x72, 0x65, 0x61, 0x5F, 0x6B, 0x65, 0x79, 0x5F],
    );
    proof {
        assert(old(v)@ + key_area_prefix() =~= final(v)@);
    }
}

/// How an optional key answers a lookup of `name` expecting `n` bytes.
pub open spec fn key_lookup_matches(
    r: Option<Vec<u8>>,
    m: Map<Seq<u8>, Seq<u8>>,
    name: Seq<u8>,
    n: int,
) -> bool {
    match r {
        Some(v) => m.contains_key(name) && m[name].len() == n && v@ == m[name],
        None => !(m.contains_key(name) && m[name].len() == n),
    }
}

/// The indexed-key listing is sound and complete for the mapping: each
/// listed pair is the key of its generation, and every generation the
/// mapping holds with `n` bytes is listed.
pub open spec fn indexed_keys_match(
    r: Seq<(u8, Vec<u8>)>,
    m: Map<Seq<u8>, Seq<u8>>,
    prefix: Seq<u8>,
    n: int,
) -> bool {
    &&& forall|j: int|
        #![all_triggers]
        0 <= j < r.len() ==> m.contains_key(indexed_key_name(prefix, r[j].0 as int)) && m[
            indexed_key_name(prefix, r[j].0 as int)
        ].len() == n && r[j].1@ == m[indexed_key_name(prefix, r[j].0 as int)]
    &&& forall|i: int|
        0 <= i < 256 && m.contains_key(#[trigger] indexed_key_name(prefix, i)) && m[
            indexed_key_name(prefix, i)
        ].len() == n ==> exists|j: int| 0 <= j < r.len() && (#[trigger] r[j]).0 as int == i
}

} // verus!
