use vstd::prelude::*;
use vstd::string::StringSliceAdditionalSpecFns;

use crate::bytes::{
    all_hex_digits, ascii_upper, find_byte, find_byte_spec, hex_decode, to_ascii_upper, trim_range,
    trim_spec,
};
use crate::crypto::{aes128_decrypt_block, aes128_decrypt_one, aes128_encrypt_block};
use crate::error::Error;
use crate::formats::keyset::hex_decode_spec;
use crate::formats::kv::{
    insert_pair, lemma_map_of_pairs_dom_len, lemma_map_of_pairs_not_found, lookup_value,
    map_of_pairs, pairs_distinct, pairs_view, KeyValuePair,
};

verus! {

/// `s` with every lower-case letter raised to upper case.
pub open spec fn upper_spec(s: Seq<u8>) -> Seq<u8> {
    Seq::new(s.len(), |i: int| ascii_upper(s[i]))
}

/// The binding one title-key line makes. Blank lines and comment lines
/// (leading `#` or `//`) bind nothing; so do lines without an equals
/// sign, with a name other than 32 characters long, or with a value
/// that is not exactly 16 bytes of hexadecimal digits. The name is
/// raised to upper case.
pub open spec fn titlekeys_line_pairs(l: Seq<u8>) -> Seq<(Seq<u8>, Seq<u8>)> {
    let t = trim_spec(l);
    if t.len() == 0 || t[0] == 0x23 || (t.len() >= 2 && t[0] == 0x2F && t[1] == 0x2F) {
        Seq::<(Seq<u8>, Seq<u8>)>::empty()
    } else if find_byte_spec(t, 0x3D) >= t.len() {
        Seq::<(Seq<u8>, Seq<u8>)>::empty()
    } else {
        let rights = trim_spec(t.take(find_byte_spec(t, 0x3D)));
        let keyhex = trim_spec(t.skip(find_byte_spec(t, 0x3D) + 1));
        if rights.len() == 32 && keyhex.len() == 32 && all_hex_digits(keyhex) {
            seq![(upper_spec(rights), hex_decode_spec(keyhex))]
        } else {
            Seq::<(Seq<u8>, Seq<u8>)>::empty()
        }
    }
}

/// The bindings of a whole title-key text, line by line.
pub open spec fn titlekeys_pairs_of_text(s: Seq<u8>) -> Seq<(Seq<u8>, Seq<u8>)>
    decreases s.len(),
        via titlekeys_pairs_of_text_decreases
{
    if s.len() == 0 {
        Seq::<(Seq<u8>, Seq<u8>)>::empty()
    } else {
        let e = find_byte_spec(s, 0x0A);
        if e >= s.len() {
            titlekeys_line_pairs(s)
        } else {
            titlekeys_line_pairs(s.take(e)) + titlekeys_pairs_of_text(s.skip(e + 1))
        }
    }
}

#[via_fn]
proof fn titlekeys_pairs_of_text_decreases(s: Seq<u8>) {
    if s.len() > 0 {
        crate::bytes::lemma_find_byte_facts(s, 0x0A);
    }
}

/// The title-key database: a mapping from upper-case rights-id to the
/// encrypted 16-byte title key stored for it.
pub struct TitleKeys {
    keys: Vec<KeyValuePair>,
    loaded_file: Option<String>,
}

impl TitleKeys {
    /// The mapping from upper-case rights-id to stored key bytes.
    pub closed spec fn title_map(&self) -> Map<Seq<u8>, Seq<u8>> {
        map_of_pairs(pairs_view(self.keys@))
    }

    /// No rights-id is stored twice.
    pub closed spec fn wf(&self) -> bool {
        pairs_distinct(pairs_view(self.keys@))
    }

    pub closed spec fn loaded_file_spec(&self) -> Option<String> {
        self.loaded_file
    }

    /// An empty database.
    pub fn new() -> (r: TitleKeys)
        ensures
            r.wf(),
            r.title_map() == Map::<Seq<u8>, Seq<u8>>::empty(),
            r.loaded_file_spec().is_none(),
    {
        TitleKeys { keys: Vec::new(), loaded_file: None }
    }

    /// Stores a key under the rights-id, raised to upper case; a second
    /// key for the same rights-id replaces the first.
    pub fn add_title_key(&mut self, rights_id: &str, key: Vec<u8>)
        requires
            old(self).wf(),
        ensures
            final(self).wf(),
            final(self).title_map() == old(self).title_map().insert(
                upper_spec(rights_id.spec_bytes()),
                key@,
            ),
            final(self).loaded_file_spec() == old(self).loaded_file_spec(),
    {
        let name = to_ascii_upper(rights_id.as_bytes());
        proof {
            assert(name@ =~= upper_spec(rights_id.spec_bytes()));
        }
        insert_pair(&mut self.keys, name, key);
    }

    /// The stored key for a rights-id, matched without regard to the
    /// letter case of the query.
    pub fn get_title_key(&self, rights_id: &str) -> (r: Option<&Vec<u8>>)
        ensures
            match r {
                Some(v) => self.title_map().contains_key(upper_spec(rights_id.spec_bytes())) && v@
                    == self.title_map()[upper_spec(rights_id.spec_bytes())],
                None => !self.title_map().contains_key(upper_spec(rights_id.spec_bytes())),
            },
    {
        let name = to_ascii_upper(rights_id.as_bytes());
        proof {
            assert(name@ =~= upper_spec(rights_id.spec_bytes()));
        }
        lookup_value(&self.keys, name.as_slice())
    }

    /// Decrypts the stored title key for a rights-id: one AES-128 block
    /// of the stored value, decrypted with the title-key-encryption key.
    /// A missing rights-id names itself in the error; a stored value
    /// shorter than one block is a cryptographic error.
    pub fn decrypt_title_key(&self, rights_id: &str, title_kek: &[u8]) -> (r: Result<
        Vec<u8>,
        Error,
    >)
        requires
            title_kek@.len() == 16,
        ensures
            match r {
                Ok(k) => {
                    &&& self.title_map().contains_key(upper_spec(rights_id.spec_bytes()))
                    &&& self.title_map()[upper_spec(rights_id.spec_bytes())].len() >= 16
                    &&& k@.len() == 16
                    &&& k@ == aes128_decrypt_block(
                        title_kek@,
                        self.title_map()[upper_spec(rights_id.spec_bytes())].take(16),
                    )
                    &&& aes128_encrypt_block(title_kek@, k@) == self.title_map()[
                        upper_spec(rights_id.spec_bytes())
                    ].take(16)
                    &&& forall|p: Seq<u8>|
                        aes128_encrypt_block(title_kek@, p) == self.title_map()[
                            upper_spec(rights_id.spec_bytes())
                        ].take(16) ==> k@ == p
                },
                Err(e) => {
                    if self.title_map().contains_key(upper_spec(rights_id.spec_bytes())) {
                        self.title_map()[upper_spec(rights_id.spec_bytes())].len() < 16 && e
                            == Error::CryptoError
                    } else {
                        e matches Error::KeyLookupError { key_name } && key_name@ == upper_spec(
                            rights_id.spec_bytes(),
                        )
                    }
                },
            },
    {
        let name = to_ascii_upper(rights_id.as_bytes());
        proof {
            assert(name@ =~= upper_spec(rights_id.spec_bytes()));
        }
        let enc_key = match lookup_value(&self.keys, name.as_slice()) {
            Some(v) => v,
            None => {
                return Err(Error::KeyLookupError { key_name: name });
            },
        };
        if enc_key.len() < 16 {
            return Err(Error::CryptoError);
        }
        let block = crate::bytes::copy_range(enc_key, 0, 16);
        proof {
            assert(block@ =~= self.title_map()[upper_spec(rights_id.spec_bytes())].take(16));
        }
        Ok(aes128_decrypt_one(title_kek, block.as_slice()))
    }

    /// Parses a title-key text: lines of `rights_id = key_hex`, the
    /// rights-id exactly 32 characters and the key exactly 16 bytes of
    /// hexadecimal; a malformed line binds nothing and parsing never
    /// fails.
    #[verifier::rlimit(100)]
    pub fn from_text(text: &str) -> (r: TitleKeys)
        ensures
            r.wf(),
            r.title_map() == map_of_pairs(titlekeys_pairs_of_text(text.spec_bytes())),
            r.loaded_file_spec().is_none(),
    {
        let v = text.as_bytes();
        let n = v.len();
        let mut keys: Vec<KeyValuePair> = Vec::new();
        let mut pos: usize = 0;
        let ghost mut done: Seq<(Seq<u8>, Seq<u8>)> = Seq::empty();
        proof {
            assert(v@.skip(0) =~= v@);
            assert(done + titlekeys_pairs_of_text(v@) =~= titlekeys_pairs_of_text(v@));
        }
        while pos < n
            invariant
                pos <= n,
                n == v@.len(),
                pairs_distinct(pairs_view(keys@)),
                map_of_pairs(pairs_view(keys@)) == map_of_pairs(done),
                done + titlekeys_pairs_of_text(v@.skip(pos as int)) == titlekeys_pairs_of_text(v@),
            decreases n - pos,
        {
            let e = find_byte(v, pos, 0x0A);
            let next = if e < n {
                e + 1
            } else {
                n
            };
            let ghost rest = v@.skip(pos as int);
            let ghost line = v@.subrange(pos as int, e as int);
            proof {
                assert(rest.len() > 0);
                assert(find_byte_spec(rest, 0x0A) == e - pos);
                if e < n {
                    assert(rest.take(e - pos) =~= line);
                    assert(rest.skip(e - pos + 1) =~= v@.skip(next as int));
                } else {
                    assert(rest =~= line);
                    assert(v@.skip(next as int) =~= Seq::<u8>::empty());
                }
                assert(titlekeys_pairs_of_text(rest) == titlekeys_line_pairs(line)
                    + titlekeys_pairs_of_text(v@.skip(next as int))) by {
                    if e >= n {
                        assert(titlekeys_pairs_of_text(line) =~= titlekeys_line_pairs(line)
                            + titlekeys_pairs_of_text(Seq::<u8>::empty()));
                    }
                }
            }
            let line_slice = vstd::slice::slice_subrange(v, pos, e);
            let llen = line_slice.len();
            let (t0, t1) = trim_range(line_slice, 0, llen);
            let ghost t = trim_spec(line);
            proof {
                assert(line_slice@.subrange(0, llen as int) =~= line_slice@);
                assert(t == line_slice@.subrange(t0 as int, t1 as int));
            }
            let mut skip_line: bool = t1 == t0;
            if !skip_line {
                let c0 = *vstd::slice::slice_index_get(line_slice, t0);
                if c0 == 0x23 {
                    skip_line = true;
                } else if c0 == 0x2F && t1 - t0 >= 2 {
                    if *vstd::slice::slice_index_get(line_slice, t0 + 1) == 0x2F {
                        skip_line = true;
                    }
                }
            }
            proof {
                assert(t.len() > 0 ==> t[0] == line_slice@[t0 as int]);
                assert(t.len() >= 2 ==> t[1] == line_slice@[t0 + 1]);
            }
            let mut bound: bool = false;
            if !skip_line {
                let eq = find_byte(line_slice, t0, 0x3D);
                let eqc = if eq > t1 {
                    t1
                } else {
                    eq
                };
                proof {
                    if eq >= t1 {
                        crate::bytes::lemma_find_byte_spec(t, 0x3D, t1 - t0);
                    } else {
                        crate::bytes::lemma_find_byte_spec(t, 0x3D, eq - t0);
                    }
                }
                if eqc < t1 {
                    let (a0, a1) = trim_range(line_slice, t0, eqc);
                    let (b0, b1) = trim_range(line_slice, eqc + 1, t1);
                    proof {
                        assert(t.take(find_byte_spec(t, 0x3D)) =~= line_slice@.subrange(
                            t0 as int,
                            eqc as int,
                        ));
                        assert(t.skip(find_byte_spec(t, 0x3D) + 1) =~= line_slice@.subrange(
                            eqc + 1,
                            t1 as int,
                        ));
                    }
                    if a1 - a0 == 32 && b1 - b0 == 32 {
                        let keyhex = vstd::slice::slice_subrange(line_slice, b0, b1);
                        match hex_decode(keyhex) {
                            Some(decoded) => {
                                let rights = vstd::slice::slice_subrange(line_slice, a0, a1);
                                let name = to_ascii_upper(rights);
                                proof {
                                    assert(decoded@ =~= hex_decode_spec(
                                        trim_spec(t.skip(find_byte_spec(t, 0x3D) + 1)),
                                    ));
                                    assert(name@ =~= upper_spec(
                                        trim_spec(t.take(find_byte_spec(t, 0x3D))),
                                    ));
                                    assert(titlekeys_line_pairs(line) =~= seq![
                                        (name@, decoded@),
                                    ]);
                                }
                                insert_pair(&mut keys, name, decoded);
                                proof {
                                    crate::formats::kv::lemma_map_of_pairs_push(
                                        done,
                                        titlekeys_line_pairs(line)[0].0,
                                        titlekeys_line_pairs(line)[0].1,
                                    );
                                    assert(done.push(titlekeys_line_pairs(line)[0]) =~= done
                                        + titlekeys_line_pairs(line));
                                    done = done + titlekeys_line_pairs(line);
                                }
                                bound = true;
                            },
                            None => {},
                        }
                    }
                }
            }
            proof {
                if !bound {
                    assert(titlekeys_line_pairs(line) =~= Seq::<(Seq<u8>, Seq<u8>)>::empty());
                }
                assert(done + titlekeys_pairs_of_text(v@.skip(next as int))
                    =~= titlekeys_pairs_of_text(v@));
            }
            pos = next;
        }
        proof {
            assert(v@.skip(n as int) =~= Seq::<u8>::empty());
            assert(done =~= titlekeys_pairs_of_text(v@));
        }
        TitleKeys { keys, loaded_file: None }
    }

    /// How many rights-ids are stored.
    pub fn len(&self) -> (r: usize)
        requires
            self.wf(),
        ensures
            r == self.title_map().dom().len(),
    {
        proof {
            lemma_map_of_pairs_dom_len(pairs_view(self.keys@));
        }
        self.keys.len()
    }

    /// Whether nothing is stored.
    pub fn is_empty(&self) -> (r: bool)
        requires
            self.wf(),
        ensures
            r == (self.title_map().dom().len() == 0),
    {
        proof {
            lemma_map_of_pairs_dom_len(pairs_view(self.keys@));
        }
        self.keys.is_empty()
    }

    /// The path the database was loaded from, if one was recorded.
    pub fn loaded_file(&self) -> (r: Option<&String>)
        ensures
            match r {
                Some(v) => self.loaded_file_spec() == Some(*v),
                None => self.loaded_file_spec().is_none(),
            },
    {
        self.loaded_file.as_ref()
    }

    /// Records the path the database was loaded from.
    pub fn set_loaded_file(&mut self, path: String)
        ensures
            final(self).title_map() == old(self).title_map(),
            final(self).wf() == old(self).wf(),
            final(self).loaded_file_spec() == Some(path),
    {
        self.loaded_file = Some(path);
    }
}

} // verus!
