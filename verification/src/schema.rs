//! Contract schema descriptors and their strict binary codec: genesis and
//! state-transition schemas made of ordered occurrence-constraint maps, an
//! ABI table and a reserved, currently-empty placeholder field.

use vstd::prelude::*;

verus! {

/// Errors of the strict schema codec.
#[derive(Clone, Copy, PartialEq, Eq, Debug)]
pub enum Error {
    /// The bytes do not form a valid encoding.
    InvalidData,
    /// A well-formed future-format payload this decoder cannot interpret,
    /// with a human-readable note.
    UnsupportedDataStructure(&'static str),
}

/// How many times a schema field or seal type may occur.
#[derive(Clone, Copy, PartialEq, Eq, Debug)]
pub enum Occurences {
    /// Exactly once.
    Once,
    /// Zero or one time.
    NoneOrOnce,
    /// One up to the given number of times; `None` means no upper bound.
    OnceOrUpTo(Option<u16>),
    /// Any number up to the given number of times; `None` means no upper
    /// bound.
    NoneOrUpTo(Option<u16>),
}

/// A metadata field identifier.
pub type FieldType = u16;

/// A seal type identifier (encoded as a 16-bit value).
pub type AssignmentsType = u16;

/// Strictly ascending key order.
pub open spec fn map_entries_sorted(s: Seq<(u16, Occurences)>) -> bool {
    forall|i: int, j: int| 0 <= i < j < s.len() ==> s[i].0 < s[j].0
}

/// Strictly ascending key order of an ABI table.
pub open spec fn abi_entries_sorted(s: Seq<(u8, u16)>) -> bool {
    forall|i: int, j: int| 0 <= i < j < s.len() ==> s[i].0 < s[j].0
}

/// Insertion into a key-sorted entry sequence: replaces the value when the
/// key is present, and splices the new entry at its ordered position when it
/// is not.
pub open spec fn map_insert_spec(
    s: Seq<(u16, Occurences)>,
    k: u16,
    v: Occurences,
) -> Seq<(u16, Occurences)>
    decreases s.len(),
{
    if s.len() == 0 {
        seq![(k, v)]
    } else if k < s[0].0 {
        seq![(k, v)] + s
    } else if k == s[0].0 {
        seq![(k, v)] + s.drop_first()
    } else {
        seq![s[0]] + map_insert_spec(s.drop_first(), k, v)
    }
}

/// An ordered map from a 16-bit identifier to an occurrence constraint, held
/// as entries in strictly ascending key order. Used for both the metadata
/// fields and the seal types of a schema.
#[derive(Clone, Debug, PartialEq, Eq)]
pub struct SchemaMap {
    entries: Vec<(u16, Occurences)>,
}

/// The metadata fields a schema permits.
pub type MetadataStructure = SchemaMap;

/// The seal types a schema closes or defines.
pub type SealsStructure = SchemaMap;

impl View for SchemaMap {
    type V = Seq<(u16, Occurences)>;

    closed spec fn view(&self) -> Seq<(u16, Occurences)> {
        self.entries@
    }
}

impl SchemaMap {
    /// Well-formed: entries in strictly ascending key order, and few enough
    /// to count in the 16-bit prefix of the encoding. Constructors establish
    /// it and `insert` preserves it.
    pub open spec fn wf(&self) -> bool {
        &&& map_entries_sorted(self@)
        &&& self@.len() <= 0xffff
    }

    /// An empty map.
    pub fn new() -> (r: SchemaMap)
        ensures
            r@ == Seq::<(u16, Occurences)>::empty(),
            r.wf(),
    {
        SchemaMap { entries: Vec::new() }
    }

    /// The number of entries.
    pub fn len(&self) -> (n: usize)
        ensures
            n == self@.len(),
    {
        self.entries.len()
    }

    /// The entries, in ascending key order.
    pub fn entries(&self) -> (r: &Vec<(u16, Occurences)>)
        ensures
            r@ == self@,
    {
        &self.entries
    }

    /// Puts an entry into the map, keeping the entries in ascending key
    /// order; an entry with the same key is replaced. The entry count is
    /// capped by the 16-bit count prefix of the encoding.
    pub fn insert(&mut self, key: u16, value: Occurences)
        requires
            old(self).wf(),
            old(self)@.len() < 0xffff,
        ensures
            final(self)@ == map_insert_spec(old(self)@, key, value),
            final(self).wf(),
    {
        let ghost s0 = self.entries@;
        let mut pos: usize = 0;
        while pos < self.entries.len() && self.entries[pos].0 < key
            invariant
                pos <= self.entries@.len(),
                self.entries@ == s0,
                forall|i: int| 0 <= i < pos ==> s0[i].0 < key,
            decreases self.entries@.len() - pos,
        {
            pos += 1;
        }
        if pos < self.entries.len() && self.entries[pos].0 == key {
            self.entries.remove(pos);
            self.entries.insert(pos, (key, value));
            proof {
                lemma_map_insert_at(s0, key, value, pos as int);
                assert(self.entries@ =~= s0.take(pos as int) + seq![(key, value)] + s0.skip(
                    pos as int + 1,
                ));
            }
        } else {
            self.entries.insert(pos, (key, value));
            proof {
                lemma_map_insert_at(s0, key, value, pos as int);
                assert(self.entries@ =~= s0.take(pos as int) + seq![(key, value)] + s0.skip(
                    pos as int,
                ));
            }
        }
    }
}

/// Splicing an entry at the ordered position matches the recursive insertion
/// specification.
proof fn lemma_map_insert_at(s: Seq<(u16, Occurences)>, k: u16, v: Occurences, pos: int)
    requires
        map_entries_sorted(s),
        0 <= pos <= s.len(),
        forall|i: int| 0 <= i < pos ==> s[i].0 < k,
        pos < s.len() ==> s[pos].0 >= k,
    ensures
        pos < s.len() && s[pos].0 == k ==> map_insert_spec(s, k, v) == s.take(pos) + seq![(k, v)]
            + s.skip(pos + 1),
        !(pos < s.len() && s[pos].0 == k) ==> map_insert_spec(s, k, v) == s.take(pos) + seq![
            (k, v),
        ] + s.skip(pos),
    decreases pos,
{
    if pos == 0 {
        if s.len() == 0 {
            assert(map_insert_spec(s, k, v) =~= s.take(0) + seq![(k, v)] + s.skip(0));
        } else if k < s[0].0 {
            assert(map_insert_spec(s, k, v) =~= s.take(0) + seq![(k, v)] + s.skip(0));
        } else {
            assert(s[0].0 == k);
            assert(map_insert_spec(s, k, v) =~= s.take(0) + seq![(k, v)] + s.skip(1));
        }
    } else {
        assert(s.len() > 0 && s[0].0 < k);
        let t = s.drop_first();
        assert(map_entries_sorted(t)) by {
            assert(forall|i: int, j: int|
                0 <= i < j < t.len() ==> t[i].0 == s[i + 1].0 && t[j].0 == s[j + 1].0 && s[i
                    + 1].0 < s[j + 1].0);
        }
        lemma_map_insert_at(t, k, v, pos - 1);
        if pos < s.len() && s[pos].0 == k {
            assert(map_insert_spec(s, k, v) =~= s.take(pos) + seq![(k, v)] + s.skip(pos + 1));
        } else {
            assert(map_insert_spec(s, k, v) =~= s.take(pos) + seq![(k, v)] + s.skip(pos));
        }
    }
}

/// An ordered ABI table: operation codes mapped to implementation references,
/// opaque to this layer, held in strictly ascending key order.
#[derive(Clone, Debug, PartialEq, Eq)]
pub struct AbiTable {
    entries: Vec<(u8, u16)>,
}

/// The ABI table of a genesis schema.
pub type GenesisAbi = AbiTable;

/// The ABI table of a transition schema.
pub type TransitionAbi = AbiTable;

impl View for AbiTable {
    type V = Seq<(u8, u16)>;

    closed spec fn view(&self) -> Seq<(u8, u16)> {
        self.entries@
    }
}

/// Insertion into a key-sorted ABI table.
pub open spec fn abi_insert_spec(s: Seq<(u8, u16)>, k: u8, v: u16) -> Seq<(u8, u16)>
    decreases s.len(),
{
    if s.len() == 0 {
        seq![(k, v)]
    } else if k < s[0].0 {
        seq![(k, v)] + s
    } else if k == s[0].0 {
        seq![(k, v)] + s.drop_first()
    } else {
        seq![s[0]] + abi_insert_spec(s.drop_first(), k, v)
    }
}

impl AbiTable {
    /// Well-formed: entries in strictly ascending key order, and few enough
    /// to count in the 16-bit prefix of the encoding. Constructors establish
    /// it and `insert` preserves it.
    pub open spec fn wf(&self) -> bool {
        &&& abi_entries_sorted(self@)
        &&& self@.len() <= 0xffff
    }

    /// An empty table.
    pub fn new() -> (r: AbiTable)
        ensures
            r@ == Seq::<(u8, u16)>::empty(),
            r.wf(),
    {
        AbiTable { entries: Vec::new() }
    }

    /// The number of entries.
    pub fn len(&self) -> (n: usize)
        ensures
            n == self@.len(),
    {
        self.entries.len()
    }

    /// The entries, in ascending key order.
    pub fn entries(&self) -> (r: &Vec<(u8, u16)>)
        ensures
            r@ == self@,
    {
        &self.entries
    }

    /// Puts an entry into the table, keeping ascending key order; an entry
    /// with the same operation code is replaced.
    pub fn insert(&mut self, key: u8, value: u16)
        requires
            old(self).wf(),
            old(self)@.len() < 0xffff,
        ensures
            final(self)@ == abi_insert_spec(old(self)@, key, value),
            final(self).wf(),
    {
        let ghost s0 = self.entries@;
        let mut pos: usize = 0;
        while pos < self.entries.len() && self.entries[pos].0 < key
            invariant
                pos <= self.entries@.len(),
                self.entries@ == s0,
                forall|i: int| 0 <= i < pos ==> s0[i].0 < key,
            decreases self.entries@.len() - pos,
        {
            pos += 1;
        }
        if pos < self.entries.len() && self.entries[pos].0 == key {
            self.entries.remove(pos);
            self.entries.insert(pos, (key, value));
            proof {
                lemma_abi_insert_at(s0, key, value, pos as int);
                assert(self.entries@ =~= s0.take(pos as int) + seq![(key, value)] + s0.skip(
                    pos as int + 1,
                ));
            }
        } else {
            self.entries.insert(pos, (key, value));
            proof {
                lemma_abi_insert_at(s0, key, value, pos as int);
                assert(self.entries@ =~= s0.take(pos as int) + seq![(key, value)] + s0.skip(
                    pos as int,
                ));
            }
        }
    }
}

/// Splicing an entry at the ordered position matches the recursive insertion
/// specification.
proof fn lemma_abi_insert_at(s: Seq<(u8, u16)>, k: u8, v: u16, pos: int)
    requires
        abi_entries_sorted(s),
        0 <= pos <= s.len(),
        forall|i: int| 0 <= i < pos ==> s[i].0 < k,
        pos < s.len() ==> s[pos].0 >= k,
    ensures
        pos < s.len() && s[pos].0 == k ==> abi_insert_spec(s, k, v) == s.take(pos) + seq![(k, v)]
            + s.skip(pos + 1),
        !(pos < s.len() && s[pos].0 == k) ==> abi_insert_spec(s, k, v) == s.take(pos) + seq![
            (k, v),
        ] + s.skip(pos),
    decreases pos,
{
    if pos == 0 {
        if s.len() == 0 {
            assert(abi_insert_spec(s, k, v) =~= s.take(0) + seq![(k, v)] + s.skip(0));
        } else if k < s[0].0 {
            assert(abi_insert_spec(s, k, v) =~= s.take(0) + seq![(k, v)] + s.skip(0));
        } else {
            assert(s[0].0 == k);
            assert(abi_insert_spec(s, k, v) =~= s.take(0) + seq![(k, v)] + s.skip(1));
        }
    } else {
        assert(s.len() > 0 && s[0].0 < k);
        let t = s.drop_first();
        assert(abi_entries_sorted(t)) by {
            assert(forall|i: int, j: int|
                0 <= i < j < t.len() ==> t[i].0 == s[i + 1].0 && t[j].0 == s[j + 1].0 && s[i
                    + 1].0 < s[j + 1].0);
        }
        lemma_abi_insert_at(t, k, v, pos - 1);
        if pos < s.len() && s[pos].0 == k {
            assert(abi_insert_spec(s, k, v) =~= s.take(pos) + seq![(k, v)] + s.skip(pos + 1));
        } else {
            assert(abi_insert_spec(s, k, v) =~= s.take(pos) + seq![(k, v)] + s.skip(pos));
        }
    }
}


// ---------------------------------------------------------------------------
// The strict encoding itself.
// ---------------------------------------------------------------------------

/// Little-endian two-byte encoding of a 16-bit integer.
pub open spec fn u16_le(v: u16) -> Seq<u8> {
    seq![(v % 0x100) as u8, (v / 0x100) as u8]
}

/// Encoding of an optional bound: a presence byte, then the bound itself.
pub open spec fn enc_opt_u16(m: Option<u16>) -> Seq<u8> {
    match m {
        Option::None => seq![0u8],
        Option::Some(v) => seq![1u8] + u16_le(v),
    }
}

/// Encoding of an occurrence constraint: a tag byte, then the optional bound
/// for the bounded forms.
pub open spec fn enc_occ(o: Occurences) -> Seq<u8> {
    match o {
        Occurences::Once => seq![0u8],
        Occurences::NoneOrOnce => seq![1u8],
        Occurences::OnceOrUpTo(m) => seq![2u8] + enc_opt_u16(m),
        Occurences::NoneOrUpTo(m) => seq![3u8] + enc_opt_u16(m),
    }
}

/// Encoding of map entries in sequence order: each key, then its constraint.
pub open spec fn enc_map_entries(s: Seq<(u16, Occurences)>) -> Seq<u8>
    decreases s.len(),
{
    if s.len() == 0 {
        Seq::empty()
    } else {
        u16_le(s[0].0) + enc_occ(s[0].1) + enc_map_entries(s.drop_first())
    }
}

/// Encoding of an occurrence-constraint map: a 16-bit entry count, then the
/// entries in the sequence's (ascending key) order.
pub open spec fn enc_map(s: Seq<(u16, Occurences)>) -> Seq<u8> {
    u16_le(s.len() as u16) + enc_map_entries(s)
}

/// Encoding of ABI entries in sequence order: each operation code, then its
/// implementation reference.
pub open spec fn enc_abi_entries(s: Seq<(u8, u16)>) -> Seq<u8>
    decreases s.len(),
{
    if s.len() == 0 {
        Seq::empty()
    } else {
        seq![s[0].0] + u16_le(s[0].1) + enc_abi_entries(s.drop_first())
    }
}

/// Encoding of an ABI table: a 16-bit entry count, then the entries in the
/// sequence's (ascending key) order.
pub open spec fn enc_abi(s: Seq<(u8, u16)>) -> Seq<u8> {
    u16_le(s.len() as u16) + enc_abi_entries(s)
}

/// Encoding of a byte sequence: a 16-bit length, then the bytes.
pub open spec fn enc_bytes(b: Seq<u8>) -> Seq<u8> {
    u16_le(b.len() as u16) + b
}

/// Encoding of a genesis schema: metadata map, defines map, ABI table, then
/// the reserved placeholder byte sequence, empty in the current format.
pub open spec fn enc_genesis(
    m: Seq<(u16, Occurences)>,
    d: Seq<(u16, Occurences)>,
    a: Seq<(u8, u16)>,
) -> Seq<u8> {
    enc_map(m) + enc_map(d) + enc_abi(a) + enc_bytes(Seq::empty())
}

/// Encoding of a transition schema: metadata map, closes map, defines map,
/// ABI table, then the reserved placeholder byte sequence, empty in the
/// current format.
pub open spec fn enc_transition(
    m: Seq<(u16, Occurences)>,
    c: Seq<(u16, Occurences)>,
    d: Seq<(u16, Occurences)>,
    a: Seq<(u8, u16)>,
) -> Seq<u8> {
    enc_map(m) + enc_map(c) + enc_map(d) + enc_abi(a) + enc_bytes(Seq::empty())
}

/// Decoding of a 16-bit little-endian integer: the value and the bytes
/// consumed, or nothing when the input is too short.
pub open spec fn dec_u16(s: Seq<u8>) -> Option<(u16, int)> {
    if s.len() >= 2 {
        Option::Some(((s[0] as int + s[1] as int * 0x100) as u16, 2int))
    } else {
        Option::None
    }
}

/// Decoding of an optional bound.
pub open spec fn dec_opt_u16(s: Seq<u8>) -> Option<(Option<u16>, int)> {
    if s.len() < 1 {
        Option::None
    } else if s[0] == 0 {
        Option::Some((Option::None, 1int))
    } else if s[0] == 1 {
        match dec_u16(s.skip(1)) {
            Option::Some((v, c)) => Option::Some((Option::Some(v), 1 + c)),
            Option::None => Option::None,
        }
    } else {
        Option::None
    }
}

/// Decoding of an occurrence constraint; any unknown tag is rejected.
pub open spec fn dec_occ(s: Seq<u8>) -> Option<(Occurences, int)> {
    if s.len() < 1 {
        Option::None
    } else if s[0] == 0 {
        Option::Some((Occurences::Once, 1int))
    } else if s[0] == 1 {
        Option::Some((Occurences::NoneOrOnce, 1int))
    } else if s[0] == 2 {
        match dec_opt_u16(s.skip(1)) {
            Option::Some((m, c)) => Option::Some((Occurences::OnceOrUpTo(m), 1 + c)),
            Option::None => Option::None,
        }
    } else if s[0] == 3 {
        match dec_opt_u16(s.skip(1)) {
            Option::Some((m, c)) => Option::Some((Occurences::NoneOrUpTo(m), 1 + c)),
            Option::None => Option::None,
        }
    } else {
        Option::None
    }
}

/// Decoding of `n` map entries whose keys must be at least `min` and strictly
/// ascending; rejects any other key order.
pub open spec fn dec_map_entries(s: Seq<u8>, n: nat, min: int) -> Option<
    (Seq<(u16, Occurences)>, int),
>
    decreases n,
{
    if n == 0 {
        Option::Some((Seq::empty(), 0int))
    } else {
        match dec_u16(s) {
            Option::None => Option::None,
            Option::Some((k, kc)) => if (k as int) < min {
                Option::None
            } else {
                match dec_occ(s.skip(kc)) {
                    Option::None => Option::None,
                    Option::Some((o, oc)) => match dec_map_entries(
                        s.skip(kc + oc),
                        (n - 1) as nat,
                        k + 1,
                    ) {
                        Option::None => Option::None,
                        Option::Some((rest, rc)) => Option::Some(
                            (seq![(k, o)] + rest, kc + oc + rc),
                        ),
                    },
                }
            },
        }
    }
}

/// Decoding of an occurrence-constraint map: the count, then that many
/// entries in strictly ascending key order.
pub open spec fn dec_map(s: Seq<u8>) -> Option<(Seq<(u16, Occurences)>, int)> {
    match dec_u16(s) {
        Option::None => Option::None,
        Option::Some((n, c)) => match dec_map_entries(s.skip(c), n as nat, 0) {
            Option::None => Option::None,
            Option::Some((es, ec)) => Option::Some((es, c + ec)),
        },
    }
}

/// Decoding of `n` ABI entries with strictly ascending operation codes.
pub open spec fn dec_abi_entries(s: Seq<u8>, n: nat, min: int) -> Option<(Seq<(u8, u16)>, int)>
    decreases n,
{
    if n == 0 {
        Option::Some((Seq::empty(), 0int))
    } else if s.len() < 1 {
        Option::None
    } else {
        let k = s[0];
        if (k as int) < min {
            Option::None
        } else {
            match dec_u16(s.skip(1)) {
                Option::None => Option::None,
                Option::Some((v, vc)) => match dec_abi_entries(
                    s.skip(1 + vc),
                    (n - 1) as nat,
                    k + 1,
                ) {
                    Option::None => Option::None,
                    Option::Some((rest, rc)) => Option::Some((seq![(k, v)] + rest, 1 + vc + rc)),
                },
            }
        }
    }
}

/// Decoding of an ABI table: the count, then that many entries in strictly
/// ascending key order.
pub open spec fn dec_abi(s: Seq<u8>) -> Option<(Seq<(u8, u16)>, int)> {
    match dec_u16(s) {
        Option::None => Option::None,
        Option::Some((n, c)) => match dec_abi_entries(s.skip(c), n as nat, 0) {
            Option::None => Option::None,
            Option::Some((es, ec)) => Option::Some((es, c + ec)),
        },
    }
}

/// Decoding of a length-prefixed byte sequence.
pub open spec fn dec_bytes(s: Seq<u8>) -> Option<(Seq<u8>, int)> {
    match dec_u16(s) {
        Option::None => Option::None,
        Option::Some((n, c)) => if s.len() >= c + n {
            Option::Some((s.subrange(c, c + n), c + n))
        } else {
            Option::None
        },
    }
}

/// Appends the little-endian encoding of `v` to `out`.
pub fn encode_u16(v: u16, out: &mut Vec<u8>)
    ensures
        final(out)@ == old(out)@ + u16_le(v),
{
    out.push((v % 0x100) as u8);
    out.push((v / 0x100) as u8);
    proof {
        assert(out@ =~= old(out)@ + u16_le(v));
    }
}

/// Appends the encoding of an occurrence constraint to `out`.
pub fn encode_occ(o: Occurences, out: &mut Vec<u8>)
    ensures
        final(out)@ == old(out)@ + enc_occ(o),
{
    match o {
        Occurences::Once => {
            out.push(0);
            proof {
                assert(out@ =~= old(out)@ + enc_occ(o));
            }
        },
        Occurences::NoneOrOnce => {
            out.push(1);
            proof {
                assert(out@ =~= old(out)@ + enc_occ(o));
            }
        },
        Occurences::OnceOrUpTo(m) => {
            out.push(2);
            encode_opt_u16(m, out);
            proof {
                assert(out@ =~= old(out)@ + enc_occ(o));
            }
        },
        Occurences::NoneOrUpTo(m) => {
            out.push(3);
            encode_opt_u16(m, out);
            proof {
                assert(out@ =~= old(out)@ + enc_occ(o));
            }
        },
    }
}

/// Appends the encoding of an optional bound to `out`.
pub fn encode_opt_u16(m: Option<u16>, out: &mut Vec<u8>)
    ensures
        final(out)@ == old(out)@ + enc_opt_u16(m),
{
    match m {
        Option::None => {
            out.push(0);
            proof {
                assert(out@ =~= old(out)@ + enc_opt_u16(m));
            }
        },
        Option::Some(v) => {
            out.push(1);
            encode_u16(v, out);
            proof {
                assert(out@ =~= old(out)@ + enc_opt_u16(m));
            }
        },
    }
}

/// Appends the encodings of the entries from index `i` on to `out`.
fn encode_map_entries(entries: &Vec<(u16, Occurences)>, i: usize, out: &mut Vec<u8>)
    requires
        i <= entries@.len(),
    ensures
        final(out)@ == old(out)@ + enc_map_entries(entries@.skip(i as int)),
    decreases entries@.len() - i,
{
    if i == entries.len() {
        proof {
            assert(entries@.skip(i as int) =~= Seq::<(u16, Occurences)>::empty());
            assert(out@ =~= out@ + enc_map_entries(entries@.skip(i as int)));
        }
    } else {
        let (k, o) = entries[i];
        encode_u16(k, out);
        encode_occ(o, out);
        encode_map_entries(entries, i + 1, out);
        proof {
            let rest = entries@.skip(i as int);
            assert(rest[0] == entries@[i as int]);
            assert(rest.drop_first() =~= entries@.skip(i as int + 1));
            assert(out@ =~= old(out)@ + enc_map_entries(entries@.skip(i as int)));
        }
    }
}

/// Appends the encoding of an occurrence-constraint map to `out`: the entry
/// count, then the entries in ascending key order.
pub fn encode_map(m: &SchemaMap, out: &mut Vec<u8>)
    requires
        m.wf(),
    ensures
        final(out)@ == old(out)@ + enc_map(m@),
{
    let es = m.entries();
    encode_u16(es.len() as u16, out);
    encode_map_entries(es, 0, out);
    proof {
        assert(es@.skip(0) =~= m@);
        assert(out@ =~= old(out)@ + enc_map(m@));
    }
}

/// Appends the encodings of the ABI entries from index `i` on to `out`.
fn encode_abi_entries(entries: &Vec<(u8, u16)>, i: usize, out: &mut Vec<u8>)
    requires
        i <= entries@.len(),
    ensures
        final(out)@ == old(out)@ + enc_abi_entries(entries@.skip(i as int)),
    decreases entries@.len() - i,
{
    if i == entries.len() {
        proof {
            assert(entries@.skip(i as int) =~= Seq::<(u8, u16)>::empty());
            assert(out@ =~= out@ + enc_abi_entries(entries@.skip(i as int)));
        }
    } else {
        let (k, v) = entries[i];
        out.push(k);
        encode_u16(v, out);
        encode_abi_entries(entries, i + 1, out);
        proof {
            let rest = entries@.skip(i as int);
            assert(rest[0] == entries@[i as int]);
            assert(rest.drop_first() =~= entries@.skip(i as int + 1));
            assert(out@ =~= old(out)@ + enc_abi_entries(entries@.skip(i as int)));
        }
    }
}

/// Appends the encoding of an ABI table to `out`: the entry count, then the
/// entries in ascending key order.
pub fn encode_abi(a: &AbiTable, out: &mut Vec<u8>)
    requires
        a.wf(),
    ensures
        final(out)@ == old(out)@ + enc_abi(a@),
{
    let es = a.entries();
    encode_u16(es.len() as u16, out);
    encode_abi_entries(es, 0, out);
    proof {
        assert(es@.skip(0) =~= a@);
        assert(out@ =~= old(out)@ + enc_abi(a@));
    }
}


/// Reads a 16-bit little-endian integer at `pos`.
fn decode_u16(d: &Vec<u8>, pos: usize) -> (r: Result<(u16, usize), Error>)
    requires
        pos <= d@.len(),
    ensures
        r is Ok <==> dec_u16(d@.skip(pos as int)) is Some,
        r is Ok ==> r->Ok_0.0 == dec_u16(d@.skip(pos as int))->Some_0.0 && r->Ok_0.1 == pos as int
            + dec_u16(d@.skip(pos as int))->Some_0.1 && pos <= r->Ok_0.1 && r->Ok_0.1 <= d@.len(),
        r is Err ==> r->Err_0 == Error::InvalidData,
{
    if d.len() - pos >= 2 {
        let b0 = d[pos];
        let b1 = d[pos + 1];
        let v: u16 = (b0 as u16) + (b1 as u16) * 0x100;
        Ok((v, pos + 2))
    } else {
        Err(Error::InvalidData)
    }
}

/// Reads an optional bound at `pos`.
fn decode_opt_u16(d: &Vec<u8>, pos: usize) -> (r: Result<(Option<u16>, usize), Error>)
    requires
        pos <= d@.len(),
    ensures
        r is Ok <==> dec_opt_u16(d@.skip(pos as int)) is Some,
        r is Ok ==> r->Ok_0.0 == dec_opt_u16(d@.skip(pos as int))->Some_0.0 && r->Ok_0.1 == pos as int
            + dec_opt_u16(d@.skip(pos as int))->Some_0.1 && pos <= r->Ok_0.1 && r->Ok_0.1 <= d@.len(),
        r is Err ==> r->Err_0 == Error::InvalidData,
{
    if d.len() - pos < 1 {
        return Err(Error::InvalidData);
    }
    let flag = d[pos];
    if flag == 0 {
        Ok((None, pos + 1))
    } else if flag == 1 {
        match decode_u16(d, pos + 1) {
            Ok((v, p)) => {
                proof {
                    assert(d@.skip(pos as int + 1) =~= d@.skip(pos as int).skip(1));
                }
                Ok((Some(v), p))
            },
            Err(e) => {
                proof {
                    assert(d@.skip(pos as int + 1) =~= d@.skip(pos as int).skip(1));
                }
                Err(e)
            },
        }
    } else {
        Err(Error::InvalidData)
    }
}

/// Reads an occurrence constraint at `pos`.
fn decode_occ(d: &Vec<u8>, pos: usize) -> (r: Result<(Occurences, usize), Error>)
    requires
        pos <= d@.len(),
    ensures
        r is Ok <==> dec_occ(d@.skip(pos as int)) is Some,
        r is Ok ==> r->Ok_0.0 == dec_occ(d@.skip(pos as int))->Some_0.0 && r->Ok_0.1 == pos as int
            + dec_occ(d@.skip(pos as int))->Some_0.1 && pos <= r->Ok_0.1 && r->Ok_0.1 <= d@.len(),
        r is Err ==> r->Err_0 == Error::InvalidData,
{
    if d.len() - pos < 1 {
        return Err(Error::InvalidData);
    }
    let tag = d[pos];
    proof {
        assert(d@.skip(pos as int + 1) =~= d@.skip(pos as int).skip(1));
    }
    if tag == 0 {
        Ok((Occurences::Once, pos + 1))
    } else if tag == 1 {
        Ok((Occurences::NoneOrOnce, pos + 1))
    } else if tag == 2 {
        match decode_opt_u16(d, pos + 1) {
            Ok((m, p)) => Ok((Occurences::OnceOrUpTo(m), p)),
            Err(e) => Err(e),
        }
    } else if tag == 3 {
        match decode_opt_u16(d, pos + 1) {
            Ok((m, p)) => Ok((Occurences::NoneOrUpTo(m), p)),
            Err(e) => Err(e),
        }
    } else {
        Err(Error::InvalidData)
    }
}

/// What a successful entry decoding yields: exactly `n` entries, strictly
/// ascending, all keys at least `min`, consuming a non-negative prefix.
proof fn lemma_dec_map_entries_props(s: Seq<u8>, n: nat, min: int)
    ensures
        dec_map_entries(s, n, min) matches Some((es, c)) ==> es.len() == n && map_entries_sorted(
            es,
        ) && (forall|i: int| 0 <= i < es.len() ==> min <= #[trigger] es[i].0 as int) && 0 <= c
            <= s.len(),
    decreases n,
{
    if n != 0 {
        match dec_u16(s) {
            Option::None => {},
            Option::Some((k, kc)) => {
                if k as int >= min {
                    match dec_occ(s.skip(kc)) {
                        Option::None => {},
                        Option::Some((o, oc)) => {
                            lemma_dec_occ_consumed(s.skip(kc));
                            lemma_dec_map_entries_props(s.skip(kc + oc), (n - 1) as nat, k + 1);
                        },
                    }
                }
            },
        }
    }
}

/// A successful constraint decoding consumes a non-negative prefix.
proof fn lemma_dec_occ_consumed(s: Seq<u8>)
    ensures
        dec_occ(s) matches Some((o, c)) ==> 1 <= c <= s.len(),
{
}

/// Reads `n` map entries at `pos`, requiring keys at least `min` and strictly
/// ascending.
fn decode_map_entries(d: &Vec<u8>, pos: usize, n: u16, min: u32) -> (r: Result<
    (Vec<(u16, Occurences)>, usize),
    Error,
>)
    requires
        pos <= d@.len(),
    ensures
        r is Ok <==> dec_map_entries(d@.skip(pos as int), n as nat, min as int) is Some,
        r is Ok ==> r->Ok_0.0@ == dec_map_entries(d@.skip(pos as int), n as nat, min as int)->Some_0.0
            && r->Ok_0.1 == pos as int + dec_map_entries(
            d@.skip(pos as int),
            n as nat,
            min as int,
        )->Some_0.1 && pos <= r->Ok_0.1 && r->Ok_0.1 <= d@.len(),
        r is Err ==> r->Err_0 == Error::InvalidData,
    decreases n,
{
    if n == 0 {
        let empty: Vec<(u16, Occurences)> = Vec::new();
        proof {
            assert(empty@ =~= Seq::<(u16, Occurences)>::empty());
        }
        return Ok((empty, pos));
    }
    let (k, p1) = match decode_u16(d, pos) {
        Ok(x) => x,
        Err(e) => {
            return Err(e);
        },
    };
    if (k as u32) < min {
        return Err(Error::InvalidData);
    }
    proof {
        assert(d@.skip(p1 as int) =~= d@.skip(pos as int).skip(2));
    }
    let (o, p2) = match decode_occ(d, p1) {
        Ok(x) => x,
        Err(e) => {
            return Err(e);
        },
    };
    proof {
        let s = d@.skip(pos as int);
        let kc = dec_u16(s)->Some_0.1;
        let oc = dec_occ(s.skip(kc))->Some_0.1;
        assert(d@.skip(p2 as int) =~= s.skip(kc + oc));
    }
    let (mut rest, p3) = match decode_map_entries(d, p2, n - 1, (k as u32) + 1) {
        Ok(x) => x,
        Err(e) => {
            return Err(e);
        },
    };
    rest.insert(0, (k, o));
    proof {
        let s = d@.skip(pos as int);
        let kc = dec_u16(s)->Some_0.1;
        let oc = dec_occ(s.skip(kc))->Some_0.1;
        assert(rest@ =~= seq![(k, o)] + dec_map_entries(s.skip(kc + oc), (n - 1) as nat, k as int
            + 1)->Some_0.0);
    }
    Ok((rest, p3))
}

/// Reads an occurrence-constraint map at `pos`: count, then entries whose
/// keys must be strictly ascending.
pub fn decode_map(d: &Vec<u8>, pos: usize) -> (r: Result<(SchemaMap, usize), Error>)
    requires
        pos <= d@.len(),
    ensures
        r is Ok <==> dec_map(d@.skip(pos as int)) is Some,
        r is Ok ==> r->Ok_0.0@ == dec_map(d@.skip(pos as int))->Some_0.0 && r->Ok_0.1 == pos as int
            + dec_map(d@.skip(pos as int))->Some_0.1 && pos <= r->Ok_0.1 && r->Ok_0.1 <= d@.len() && r->Ok_0.0.wf(),
        r is Err ==> r->Err_0 == Error::InvalidData,
{
    let (n, p1) = match decode_u16(d, pos) {
        Ok(x) => x,
        Err(e) => {
            return Err(e);
        },
    };
    proof {
        assert(d@.skip(p1 as int) =~= d@.skip(pos as int).skip(2));
    }
    let (entries, p2) = match decode_map_entries(d, p1, n, 0) {
        Ok(x) => x,
        Err(e) => {
            return Err(e);
        },
    };
    proof {
        lemma_dec_map_entries_props(d@.skip(p1 as int), n as nat, 0);
    }
    Ok((SchemaMap { entries }, p2))
}

/// What a successful ABI entry decoding yields.
proof fn lemma_dec_abi_entries_props(s: Seq<u8>, n: nat, min: int)
    ensures
        dec_abi_entries(s, n, min) matches Some((es, c)) ==> es.len() == n && abi_entries_sorted(
            es,
        ) && (forall|i: int| 0 <= i < es.len() ==> min <= #[trigger] es[i].0 as int) && 0 <= c
            <= s.len(),
    decreases n,
{
    if n != 0 && s.len() >= 1 {
        let k = s[0];
        if k as int >= min {
            match dec_u16(s.skip(1)) {
                Option::None => {},
                Option::Some((v, vc)) => {
                    lemma_dec_abi_entries_props(s.skip(1 + vc), (n - 1) as nat, k + 1);
                },
            }
        }
    }
}

/// Reads `n` ABI entries at `pos`, requiring operation codes at least `min`
/// and strictly ascending.
fn decode_abi_entries(d: &Vec<u8>, pos: usize, n: u16, min: u16) -> (r: Result<
    (Vec<(u8, u16)>, usize),
    Error,
>)
    requires
        pos <= d@.len(),
    ensures
        r is Ok <==> dec_abi_entries(d@.skip(pos as int), n as nat, min as int) is Some,
        r is Ok ==> r->Ok_0.0@ == dec_abi_entries(d@.skip(pos as int), n as nat, min as int)->Some_0.0
            && r->Ok_0.1 == pos as int + dec_abi_entries(
            d@.skip(pos as int),
            n as nat,
            min as int,
        )->Some_0.1 && pos <= r->Ok_0.1 && r->Ok_0.1 <= d@.len(),
        r is Err ==> r->Err_0 == Error::InvalidData,
    decreases n,
{
    if n == 0 {
        let empty: Vec<(u8, u16)> = Vec::new();
        proof {
            assert(empty@ =~= Seq::<(u8, u16)>::empty());
        }
        return Ok((empty, pos));
    }
    if d.len() - pos < 1 {
        return Err(Error::InvalidData);
    }
    let k = d[pos];
    if (k as u16) < min {
        return Err(Error::InvalidData);
    }
    proof {
        assert(d@.skip(pos as int + 1) =~= d@.skip(pos as int).skip(1));
    }
    let (v, p1) = match decode_u16(d, pos + 1) {
        Ok(x) => x,
        Err(e) => {
            return Err(e);
        },
    };
    proof {
        let s = d@.skip(pos as int);
        let vc = dec_u16(s.skip(1))->Some_0.1;
        assert(d@.skip(p1 as int) =~= s.skip(1 + vc));
    }
    let (mut rest, p2) = match decode_abi_entries(d, p1, n - 1, (k as u16) + 1) {
        Ok(x) => x,
        Err(e) => {
            return Err(e);
        },
    };
    rest.insert(0, (k, v));
    proof {
        let s = d@.skip(pos as int);
        let vc = dec_u16(s.skip(1))->Some_0.1;
        assert(rest@ =~= seq![(k, v)] + dec_abi_entries(s.skip(1 + vc), (n - 1) as nat, k as int
            + 1)->Some_0.0);
    }
    Ok((rest, p2))
}

/// Reads an ABI table at `pos`.
pub fn decode_abi(d: &Vec<u8>, pos: usize) -> (r: Result<(AbiTable, usize), Error>)
    requires
        pos <= d@.len(),
    ensures
        r is Ok <==> dec_abi(d@.skip(pos as int)) is Some,
        r is Ok ==> r->Ok_0.0@ == dec_abi(d@.skip(pos as int))->Some_0.0 && r->Ok_0.1 == pos as int
            + dec_abi(d@.skip(pos as int))->Some_0.1 && pos <= r->Ok_0.1 && r->Ok_0.1 <= d@.len() && r->Ok_0.0.wf(),
        r is Err ==> r->Err_0 == Error::InvalidData,
{
    let (n, p1) = match decode_u16(d, pos) {
        Ok(x) => x,
        Err(e) => {
            return Err(e);
        },
    };
    proof {
        assert(d@.skip(p1 as int) =~= d@.skip(pos as int).skip(2));
    }
    let (entries, p2) = match decode_abi_entries(d, p1, n, 0) {
        Ok(x) => x,
        Err(e) => {
            return Err(e);
        },
    };
    proof {
        lemma_dec_abi_entries_props(d@.skip(p1 as int), n as nat, 0);
    }
    Ok((AbiTable { entries }, p2))
}

/// Reads the reserved trailing byte sequence at `pos` and enforces the
/// forward-compatibility gate: succeeds only when the sequence is empty, and
/// rejects a non-empty one as an unsupported data structure.
fn decode_placeholder(d: &Vec<u8>, pos: usize) -> (r: Result<usize, Error>)
    requires
        pos <= d@.len(),
    ensures
        match dec_bytes(d@.skip(pos as int)) {
            Option::Some((payload, c)) => if payload.len() == 0 {
                r is Ok && r->Ok_0 == pos as int + c && pos <= r->Ok_0 && r->Ok_0 <= d@.len()
            } else {
                r is Err && r->Err_0 matches Error::UnsupportedDataStructure(_)
            },
            Option::None => r is Err && r->Err_0 == Error::InvalidData,
        },
{
    let (n, p1) = match decode_u16(d, pos) {
        Ok(x) => x,
        Err(e) => {
            return Err(e);
        },
    };
    if d.len() - p1 < n as usize {
        return Err(Error::InvalidData);
    }
    if n != 0 {
        return Err(Error::UnsupportedDataStructure("Scripting information is not yet supported"));
    }
    Ok(p1)
}


/// The outcome of decoding a genesis schema: the decoded fields and consumed
/// length, a rejection of a future-format payload, or invalid data.
pub enum GenesisDecode {
    Done(Seq<(u16, Occurences)>, Seq<(u16, Occurences)>, Seq<(u8, u16)>, int),
    Unsupported,
    Invalid,
}

/// The outcome of decoding a transition schema.
pub enum TransitionDecode {
    Done(Seq<(u16, Occurences)>, Seq<(u16, Occurences)>, Seq<(u16, Occurences)>, Seq<(u8, u16)>, int),
    Unsupported,
    Invalid,
}

/// Decoding of a genesis schema: metadata map, defines map, ABI table, then
/// the reserved byte sequence, which must be empty; a non-empty one is a
/// future format and is rejected as unsupported rather than ignored.
pub open spec fn dec_genesis(s: Seq<u8>) -> GenesisDecode {
    match dec_map(s) {
        Option::None => GenesisDecode::Invalid,
        Option::Some((m, c1)) => match dec_map(s.skip(c1)) {
            Option::None => GenesisDecode::Invalid,
            Option::Some((df, c2)) => match dec_abi(s.skip(c1 + c2)) {
                Option::None => GenesisDecode::Invalid,
                Option::Some((a, c3)) => match dec_bytes(s.skip(c1 + c2 + c3)) {
                    Option::None => GenesisDecode::Invalid,
                    Option::Some((payload, c4)) => if payload.len() == 0 {
                        GenesisDecode::Done(m, df, a, c1 + c2 + c3 + c4)
                    } else {
                        GenesisDecode::Unsupported
                    },
                },
            },
        },
    }
}

/// Decoding of a transition schema: metadata map, closes map, defines map,
/// ABI table, then the reserved byte sequence, which must be empty.
pub open spec fn dec_transition(s: Seq<u8>) -> TransitionDecode {
    match dec_map(s) {
        Option::None => TransitionDecode::Invalid,
        Option::Some((m, c1)) => match dec_map(s.skip(c1)) {
            Option::None => TransitionDecode::Invalid,
            Option::Some((cl, c2)) => match dec_map(s.skip(c1 + c2)) {
                Option::None => TransitionDecode::Invalid,
                Option::Some((df, c3)) => match dec_abi(s.skip(c1 + c2 + c3)) {
                    Option::None => TransitionDecode::Invalid,
                    Option::Some((a, c4)) => match dec_bytes(s.skip(c1 + c2 + c3 + c4)) {
                        Option::None => TransitionDecode::Invalid,
                        Option::Some((payload, c5)) => if payload.len() == 0 {
                            TransitionDecode::Done(m, cl, df, a, c1 + c2 + c3 + c4 + c5)
                        } else {
                            TransitionDecode::Unsupported
                        },
                    },
                },
            },
        },
    }
}

/// The schema of a genesis node: the metadata fields it may carry, the seal
/// types it defines, and its ABI table.
#[derive(Clone, Debug, PartialEq, Eq)]
pub struct GenesisSchema {
    pub metadata: MetadataStructure,
    pub defines: SealsStructure,
    pub abi: GenesisAbi,
}

/// The schema of a state-transition node: the metadata fields it may carry,
/// the seal types it closes and defines, and its ABI table.
#[derive(Clone, Debug, PartialEq, Eq)]
pub struct TransitionSchema {
    pub metadata: MetadataStructure,
    pub closes: SealsStructure,
    pub defines: SealsStructure,
    pub abi: TransitionAbi,
}

impl GenesisSchema {
    /// All parts well-formed.
    pub open spec fn wf(&self) -> bool {
        &&& self.metadata.wf()
        &&& self.defines.wf()
        &&& self.abi.wf()
    }

    /// Appends the strict encoding to `e`: metadata map, defines map, ABI
    /// table, then the reserved placeholder byte sequence, kept for future
    /// embedded validation scripts and empty in the current format. Returns
    /// the number of bytes written.
    pub fn strict_encode(&self, e: &mut Vec<u8>) -> (n: usize)
        requires
            self.wf(),
        ensures
            final(e)@ == old(e)@ + enc_genesis(self.metadata@, self.defines@, self.abi@),
            n == enc_genesis(self.metadata@, self.defines@, self.abi@).len(),
    {
        let start = e.len();
        encode_map(&self.metadata, e);
        encode_map(&self.defines, e);
        encode_abi(&self.abi, e);
        encode_u16(0, e);
        proof {
            assert(enc_bytes(Seq::<u8>::empty()) =~= u16_le(0));
            assert(e@ =~= old(e)@ + enc_genesis(self.metadata@, self.defines@, self.abi@));
        }
        e.len() - start
    }

    /// Decodes a genesis schema from the start of `d`, returning it with the
    /// number of bytes consumed. Fails on invalid data, and fails with an
    /// unsupported-data-structure error whenever the reserved trailing byte
    /// sequence is non-empty: a future-format schema is rejected outright
    /// rather than partially understood.
    #[verifier::rlimit(50)]
    pub fn strict_decode(d: &Vec<u8>) -> (r: Result<(GenesisSchema, usize), Error>)
        ensures
            match dec_genesis(d@) {
                GenesisDecode::Done(m, df, a, c) => r is Ok && r->Ok_0.0.metadata@ == m
                    && r->Ok_0.0.defines@ == df && r->Ok_0.0.abi@ == a && r->Ok_0.1 == c
                    && r->Ok_0.0.wf(),
                GenesisDecode::Unsupported => r is Err && r->Err_0 matches
                    Error::UnsupportedDataStructure(_),
                GenesisDecode::Invalid => r is Err && r->Err_0 == Error::InvalidData,
            },
    {
        proof {
            assert(d@.skip(0) =~= d@);
        }
        let (metadata, p1) = match decode_map(d, 0) {
            Ok(x) => x,
            Err(e) => {
                return Err(e);
            },
        };
        let (defines, p2) = match decode_map(d, p1) {
            Ok(x) => x,
            Err(e) => {
                return Err(e);
            },
        };
        proof {
            let c1 = dec_map(d@)->Some_0.1;
            assert(d@.skip(p2 as int) =~= d@.skip(c1).skip(dec_map(d@.skip(c1))->Some_0.1));
        }
        let (abi, p3) = match decode_abi(d, p2) {
            Ok(x) => x,
            Err(e) => {
                return Err(e);
            },
        };
        proof {
            let c1 = dec_map(d@)->Some_0.1;
            let c2 = dec_map(d@.skip(c1))->Some_0.1;
            assert(d@.skip(p3 as int) =~= d@.skip(c1 + c2).skip(dec_abi(d@.skip(c1 + c2))->Some_0.1));
        }
        let p4 = match decode_placeholder(d, p3) {
            Ok(x) => x,
            Err(e) => {
                return Err(e);
            },
        };
        Ok((GenesisSchema { metadata, defines, abi }, p4))
    }
}

impl TransitionSchema {
    /// All parts well-formed.
    pub open spec fn wf(&self) -> bool {
        &&& self.metadata.wf()
        &&& self.closes.wf()
        &&& self.defines.wf()
        &&& self.abi.wf()
    }

    /// Appends the strict encoding to `e`: metadata map, closes map, defines
    /// map, ABI table, then the reserved placeholder byte sequence, kept for
    /// future embedded validation scripts and empty in the current format.
    /// Returns the number of bytes written.
    pub fn strict_encode(&self, e: &mut Vec<u8>) -> (n: usize)
        requires
            self.wf(),
        ensures
            final(e)@ == old(e)@ + enc_transition(
                self.metadata@,
                self.closes@,
                self.defines@,
                self.abi@,
            ),
            n == enc_transition(self.metadata@, self.closes@, self.defines@, self.abi@).len(),
    {
        let start = e.len();
        encode_map(&self.metadata, e);
        encode_map(&self.closes, e);
        encode_map(&self.defines, e);
        encode_abi(&self.abi, e);
        encode_u16(0, e);
        proof {
            assert(enc_bytes(Seq::<u8>::empty()) =~= u16_le(0));
            assert(e@ =~= old(e)@ + enc_transition(
                self.metadata@,
                self.closes@,
                self.defines@,
                self.abi@,
            ));
        }
        e.len() - start
    }

    /// Decodes a transition schema from the start of `d`, returning it with
    /// the number of bytes consumed. Fails on invalid data, and fails with an
    /// unsupported-data-structure error whenever the reserved trailing byte
    /// sequence is non-empty.
    #[verifier::rlimit(50)]
    pub fn strict_decode(d: &Vec<u8>) -> (r: Result<(TransitionSchema, usize), Error>)
        ensures
            match dec_transition(d@) {
                TransitionDecode::Done(m, cl, df, a, c) => r is Ok && r->Ok_0.0.metadata@ == m
                    && r->Ok_0.0.closes@ == cl && r->Ok_0.0.defines@ == df && r->Ok_0.0.abi@ == a
                    && r->Ok_0.1 == c && r->Ok_0.0.wf(),
                TransitionDecode::Unsupported => r is Err && r->Err_0 matches
                    Error::UnsupportedDataStructure(_),
                TransitionDecode::Invalid => r is Err && r->Err_0 == Error::InvalidData,
            },
    {
        proof {
            assert(d@.skip(0) =~= d@);
        }
        let (metadata, p1) = match decode_map(d, 0) {
            Ok(x) => x,
            Err(e) => {
                return Err(e);
            },
        };
        let (closes, p2) = match decode_map(d, p1) {
            Ok(x) => x,
            Err(e) => {
                return Err(e);
            },
        };
        proof {
            let c1 = dec_map(d@)->Some_0.1;
            assert(d@.skip(p2 as int) =~= d@.skip(c1).skip(dec_map(d@.skip(c1))->Some_0.1));
        }
        let (defines, p3) = match decode_map(d, p2) {
            Ok(x) => x,
            Err(e) => {
                return Err(e);
            },
        };
        proof {
            let c1 = dec_map(d@)->Some_0.1;
            let c2 = dec_map(d@.skip(c1))->Some_0.1;
            assert(d@.skip(p3 as int) =~= d@.skip(c1 + c2).skip(
                dec_map(d@.skip(c1 + c2))->Some_0.1,
            ));
        }
        let (abi, p4) = match decode_abi(d, p3) {
            Ok(x) => x,
            Err(e) => {
                return Err(e);
            },
        };
        proof {
            let c1 = dec_map(d@)->Some_0.1;
            let c2 = dec_map(d@.skip(c1))->Some_0.1;
            let c3 = dec_map(d@.skip(c1 + c2))->Some_0.1;
            assert(d@.skip(p4 as int) =~= d@.skip(c1 + c2 + c3).skip(
                dec_abi(d@.skip(c1 + c2 + c3))->Some_0.1,
            ));
        }
        let p5 = match decode_placeholder(d, p4) {
            Ok(x) => x,
            Err(e) => {
                return Err(e);
            },
        };
        Ok((TransitionSchema { metadata, closes, defines, abi }, p5))
    }
}


// ---------------------------------------------------------------------------
// Round-trip laws: decoding an encoding yields the encoded value, and a
// non-empty reserved trailing field is always rejected.
// ---------------------------------------------------------------------------

/// Decoding reads back an encoded 16-bit integer.
proof fn lemma_dec_u16_enc(v: u16, rest: Seq<u8>)
    ensures
        dec_u16(u16_le(v) + rest) == Some((v, 2int)),
{
    let b = u16_le(v) + rest;
    assert(b[0] == (v % 0x100) as u8);
    assert(b[1] == (v / 0x100) as u8);
    vstd::arithmetic::div_mod::lemma_fundamental_div_mod(v as int, 0x100);
    assert((b[0] as int + b[1] as int * 0x100) as u16 == v);
}

/// Decoding reads back an encoded optional bound.
proof fn lemma_dec_opt_u16_enc(m: Option<u16>, rest: Seq<u8>)
    ensures
        dec_opt_u16(enc_opt_u16(m) + rest) == Some((m, enc_opt_u16(m).len() as int)),
{
    let b = enc_opt_u16(m) + rest;
    match m {
        Option::None => {
            assert(b[0] == 0);
        },
        Option::Some(v) => {
            assert(b[0] == 1);
            assert(b.skip(1) =~= u16_le(v) + rest);
            lemma_dec_u16_enc(v, rest);
        },
    }
}

/// Decoding reads back an encoded occurrence constraint.
proof fn lemma_dec_occ_enc(o: Occurences, rest: Seq<u8>)
    ensures
        dec_occ(enc_occ(o) + rest) == Some((o, enc_occ(o).len() as int)),
{
    let b = enc_occ(o) + rest;
    match o {
        Occurences::Once => {
            assert(b[0] == 0);
        },
        Occurences::NoneOrOnce => {
            assert(b[0] == 1);
        },
        Occurences::OnceOrUpTo(m) => {
            assert(b[0] == 2);
            assert(b.skip(1) =~= enc_opt_u16(m) + rest);
            lemma_dec_opt_u16_enc(m, rest);
        },
        Occurences::NoneOrUpTo(m) => {
            assert(b[0] == 3);
            assert(b.skip(1) =~= enc_opt_u16(m) + rest);
            lemma_dec_opt_u16_enc(m, rest);
        },
    }
}

/// Decoding reads back encoded map entries, in order, when their keys are
/// strictly ascending and at least `min`.
proof fn lemma_dec_map_entries_enc(s: Seq<(u16, Occurences)>, rest: Seq<u8>, min: int)
    requires
        map_entries_sorted(s),
        forall|i: int| 0 <= i < s.len() ==> min <= #[trigger] s[i].0 as int,
    ensures
        dec_map_entries(enc_map_entries(s) + rest, s.len(), min) == Some(
            (s, enc_map_entries(s).len() as int),
        ),
    decreases s.len(),
{
    let b = enc_map_entries(s) + rest;
    if s.len() == 0 {
        assert(s =~= Seq::<(u16, Occurences)>::empty());
    } else {
        let k = s[0].0;
        let o = s[0].1;
        let t = s.drop_first();
        let r1 = enc_occ(o) + (enc_map_entries(t) + rest);
        assert(b =~= u16_le(k) + r1);
        lemma_dec_u16_enc(k, r1);
        assert(b.skip(2) =~= r1);
        lemma_dec_occ_enc(o, enc_map_entries(t) + rest);
        let oc = enc_occ(o).len() as int;
        assert(b.skip(2).skip(oc) =~= enc_map_entries(t) + rest);
        assert(b.skip(2 + oc) =~= b.skip(2).skip(oc));
        assert(map_entries_sorted(t) && (forall|i: int|
            0 <= i < t.len() ==> k as int + 1 <= #[trigger] t[i].0 as int)) by {
            assert(forall|i: int|
                0 <= i < t.len() ==> #[trigger] t[i] == s[i + 1] && s[0].0 < s[i + 1].0);
            assert(forall|i: int, j: int|
                0 <= i < j < t.len() ==> t[i] == s[i + 1] && t[j] == s[j + 1] && s[i + 1].0 < s[j
                    + 1].0);
        }
        lemma_dec_map_entries_enc(t, rest, k as int + 1);
        assert(seq![(k, o)] + t =~= s);
    }
}

/// Decoding reads back an encoded occurrence-constraint map.
proof fn lemma_dec_map_enc(s: Seq<(u16, Occurences)>, rest: Seq<u8>)
    requires
        map_entries_sorted(s),
        s.len() <= 0xffff,
    ensures
        dec_map(enc_map(s) + rest) == Some((s, enc_map(s).len() as int)),
{
    let b = enc_map(s) + rest;
    let n = s.len() as u16;
    assert(b =~= u16_le(n) + (enc_map_entries(s) + rest));
    lemma_dec_u16_enc(n, enc_map_entries(s) + rest);
    assert(b.skip(2) =~= enc_map_entries(s) + rest);
    lemma_dec_map_entries_enc(s, rest, 0);
}

/// Decoding reads back encoded ABI entries, in order, when their keys are
/// strictly ascending and at least `min`.
proof fn lemma_dec_abi_entries_enc(s: Seq<(u8, u16)>, rest: Seq<u8>, min: int)
    requires
        abi_entries_sorted(s),
        forall|i: int| 0 <= i < s.len() ==> min <= #[trigger] s[i].0 as int,
    ensures
        dec_abi_entries(enc_abi_entries(s) + rest, s.len(), min) == Some(
            (s, enc_abi_entries(s).len() as int),
        ),
    decreases s.len(),
{
    let b = enc_abi_entries(s) + rest;
    if s.len() == 0 {
        assert(s =~= Seq::<(u8, u16)>::empty());
    } else {
        let k = s[0].0;
        let v = s[0].1;
        let t = s.drop_first();
        assert(b[0] == k);
        assert(b.skip(1) =~= u16_le(v) + (enc_abi_entries(t) + rest));
        lemma_dec_u16_enc(v, enc_abi_entries(t) + rest);
        assert(b.skip(1).skip(2) =~= enc_abi_entries(t) + rest);
        assert(b.skip(3int) =~= b.skip(1).skip(2));
        assert(abi_entries_sorted(t) && (forall|i: int|
            0 <= i < t.len() ==> k as int + 1 <= #[trigger] t[i].0 as int)) by {
            assert(forall|i: int|
                0 <= i < t.len() ==> #[trigger] t[i] == s[i + 1] && s[0].0 < s[i + 1].0);
            assert(forall|i: int, j: int|
                0 <= i < j < t.len() ==> t[i] == s[i + 1] && t[j] == s[j + 1] && s[i + 1].0 < s[j
                    + 1].0);
        }
        lemma_dec_abi_entries_enc(t, rest, k as int + 1);
        assert(seq![(k, v)] + t =~= s);
    }
}

/// Decoding reads back an encoded ABI table.
proof fn lemma_dec_abi_enc(s: Seq<(u8, u16)>, rest: Seq<u8>)
    requires
        abi_entries_sorted(s),
        s.len() <= 0xffff,
    ensures
        dec_abi(enc_abi(s) + rest) == Some((s, enc_abi(s).len() as int)),
{
    let b = enc_abi(s) + rest;
    let n = s.len() as u16;
    assert(b =~= u16_le(n) + (enc_abi_entries(s) + rest));
    lemma_dec_u16_enc(n, enc_abi_entries(s) + rest);
    assert(b.skip(2) =~= enc_abi_entries(s) + rest);
    lemma_dec_abi_entries_enc(s, rest, 0);
}

/// Decoding reads back an encoded byte sequence.
proof fn lemma_dec_bytes_enc(p: Seq<u8>, rest: Seq<u8>)
    requires
        p.len() <= 0xffff,
    ensures
        dec_bytes(enc_bytes(p) + rest) == Some((p, 2 + p.len() as int)),
{
    let b = enc_bytes(p) + rest;
    let n = p.len() as u16;
    assert(b =~= u16_le(n) + (p + rest));
    lemma_dec_u16_enc(n, p + rest);
    assert(b.subrange(2, 2 + p.len() as int) =~= p);
}

/// The common tail of both schema encodings: a map, an ABI table and the
/// length-prefixed trailing byte sequence decode back from their
/// concatenation.
proof fn lemma_dec_schema_tail(dd: Seq<(u16, Occurences)>, aa: Seq<(u8, u16)>, payload: Seq<u8>)
    requires
        map_entries_sorted(dd),
        dd.len() <= 0xffff,
        abi_entries_sorted(aa),
        aa.len() <= 0xffff,
        payload.len() <= 0xffff,
    ensures
        ({
            let t = enc_map(dd) + (enc_abi(aa) + enc_bytes(payload));
            let k1 = enc_map(dd).len() as int;
            let k2 = enc_abi(aa).len() as int;
            &&& dec_map(t) == Some((dd, k1))
            &&& dec_abi(t.skip(k1)) == Some((aa, k2))
            &&& dec_bytes(t.skip(k1 + k2)) == Some((payload, 2 + payload.len() as int))
        }),
{
    let t = enc_map(dd) + (enc_abi(aa) + enc_bytes(payload));
    let k1 = enc_map(dd).len() as int;
    let k2 = enc_abi(aa).len() as int;
    assert(dec_map(t) == Some((dd, k1))) by {
        lemma_dec_map_enc(dd, enc_abi(aa) + enc_bytes(payload));
    }
    assert(dec_abi(t.skip(k1)) == Some((aa, k2))) by {
        lemma_dec_abi_enc(aa, enc_bytes(payload));
        assert(t.skip(k1) =~= enc_abi(aa) + enc_bytes(payload));
    }
    assert(dec_bytes(t.skip(k1 + k2)) == Some((payload, 2 + payload.len() as int))) by {
        lemma_dec_bytes_enc(payload, Seq::<u8>::empty());
        assert(t.skip(k1 + k2) =~= enc_bytes(payload) + Seq::<u8>::empty());
    }
}


/// Law: the genesis-schema codec round-trips. Decoding the strict encoding of
/// any well-formed metadata map, defines map and ABI table yields them back
/// unchanged, consuming the whole encoding.
#[verifier::rlimit(100)]
#[verifier::spinoff_prover]
pub proof fn lemma_genesis_round_trip(
    m: Seq<(u16, Occurences)>,
    d: Seq<(u16, Occurences)>,
    a: Seq<(u8, u16)>,
)
    requires
        map_entries_sorted(m),
        m.len() <= 0xffff,
        map_entries_sorted(d),
        d.len() <= 0xffff,
        abi_entries_sorted(a),
        a.len() <= 0xffff,
    ensures
        dec_genesis(enc_genesis(m, d, a)) == GenesisDecode::Done(
            m,
            d,
            a,
            enc_genesis(m, d, a).len() as int,
        ),
{
    let s = enc_genesis(m, d, a);
    let t = enc_map(d) + (enc_abi(a) + enc_bytes(Seq::<u8>::empty()));
    let k1 = enc_map(m).len() as int;
    let k2 = enc_map(d).len() as int;
    let k3 = enc_abi(a).len() as int;
    lemma_dec_schema_tail(d, a, Seq::<u8>::empty());
    assert(dec_map(s) == Some((m, k1))) by {
        lemma_dec_map_enc(m, t);
        assert(s =~= enc_map(m) + t);
    }
    assert(s.skip(k1) == t) by {
        assert(s.skip(k1) =~= t);
    }
    assert(s.skip(k1 + k2) == t.skip(k2)) by {
        assert(s.skip(k1 + k2) =~= t.skip(k2));
    }
    assert(s.skip(k1 + k2 + k3) == t.skip(k2 + k3)) by {
        assert(s.skip(k1 + k2 + k3) =~= t.skip(k2 + k3));
    }
    assert(s.len() == k1 + k2 + k3 + 2);
}

/// The five components of a transition-schema encoding decode back in place.
#[verifier::rlimit(100)]
#[verifier::spinoff_prover]
proof fn lemma_transition_parts(
    m: Seq<(u16, Occurences)>,
    c: Seq<(u16, Occurences)>,
    d: Seq<(u16, Occurences)>,
    a: Seq<(u8, u16)>,
)
    requires
        map_entries_sorted(m),
        m.len() <= 0xffff,
        map_entries_sorted(c),
        c.len() <= 0xffff,
        map_entries_sorted(d),
        d.len() <= 0xffff,
        abi_entries_sorted(a),
        a.len() <= 0xffff,
    ensures
        ({
            let s = enc_transition(m, c, d, a);
            let k1 = enc_map(m).len() as int;
            let k2 = enc_map(c).len() as int;
            let k3 = enc_map(d).len() as int;
            let k4 = enc_abi(a).len() as int;
            &&& dec_map(s) == Some((m, k1))
            &&& dec_map(s.skip(k1)) == Some((c, k2))
            &&& dec_map(s.skip(k1 + k2)) == Some((d, k3))
            &&& dec_abi(s.skip(k1 + k2 + k3)) == Some((a, k4))
            &&& dec_bytes(s.skip(k1 + k2 + k3 + k4)) == Some((Seq::<u8>::empty(), 2int))
            &&& s.len() == k1 + k2 + k3 + k4 + 2
        }),
{
    let s = enc_transition(m, c, d, a);
    let em = enc_map(m);
    let ec = enc_map(c);
    let t = enc_map(d) + (enc_abi(a) + enc_bytes(Seq::<u8>::empty()));
    let k1 = em.len() as int;
    let k2 = ec.len() as int;
    let k3 = enc_map(d).len() as int;
    let k4 = enc_abi(a).len() as int;
    lemma_dec_schema_tail(d, a, Seq::<u8>::empty());
    assert(s =~= em + (ec + t));
    lemma_dec_map_enc(m, ec + t);
    vstd::seq_lib::lemma_seq_append_take_skip(em, ec + t, k1);
    lemma_dec_map_enc(c, t);
    vstd::seq_lib::lemma_seq_append_take_skip(ec, t, k2);
    vstd::seq_lib::lemma_seq_skip_of_skip(s, k1, k2);
    assert(s.skip(k1 + k2) == t);
    vstd::seq_lib::lemma_seq_skip_of_skip(s, k1 + k2, k3);
    assert(s.skip(k1 + k2 + k3) == t.skip(k3));
    vstd::seq_lib::lemma_seq_skip_of_skip(s, k1 + k2, k3 + k4);
    assert(s.skip(k1 + k2 + k3 + k4) == t.skip(k3 + k4));
}


/// Law: the transition-schema codec round-trips, as the genesis one does.
#[verifier::rlimit(100)]
#[verifier::spinoff_prover]
pub proof fn lemma_transition_round_trip(
    m: Seq<(u16, Occurences)>,
    c: Seq<(u16, Occurences)>,
    d: Seq<(u16, Occurences)>,
    a: Seq<(u8, u16)>,
)
    requires
        map_entries_sorted(m),
        m.len() <= 0xffff,
        map_entries_sorted(c),
        c.len() <= 0xffff,
        map_entries_sorted(d),
        d.len() <= 0xffff,
        abi_entries_sorted(a),
        a.len() <= 0xffff,
    ensures
        dec_transition(enc_transition(m, c, d, a)) == TransitionDecode::Done(
            m,
            c,
            d,
            a,
            enc_transition(m, c, d, a).len() as int,
        ),
{
    lemma_transition_parts(m, c, d, a);
}

/// Law: the forward-compatibility gate always fires. A byte stream that is a
/// valid genesis-schema encoding except for a non-empty reserved trailing
/// byte sequence never decodes successfully: it is rejected as an unsupported
/// data structure, not silently truncated.
#[verifier::rlimit(100)]
#[verifier::spinoff_prover]
pub proof fn lemma_genesis_rejects_future_payload(
    m: Seq<(u16, Occurences)>,
    d: Seq<(u16, Occurences)>,
    a: Seq<(u8, u16)>,
    payload: Seq<u8>,
)
    requires
        map_entries_sorted(m),
        m.len() <= 0xffff,
        map_entries_sorted(d),
        d.len() <= 0xffff,
        abi_entries_sorted(a),
        a.len() <= 0xffff,
        0 < payload.len() <= 0xffff,
    ensures
        dec_genesis(enc_map(m) + enc_map(d) + enc_abi(a) + enc_bytes(payload))
            == GenesisDecode::Unsupported,
{
    let s = enc_map(m) + enc_map(d) + enc_abi(a) + enc_bytes(payload);
    let t = enc_map(d) + (enc_abi(a) + enc_bytes(payload));
    let k1 = enc_map(m).len() as int;
    let k2 = enc_map(d).len() as int;
    let k3 = enc_abi(a).len() as int;
    lemma_dec_schema_tail(d, a, payload);
    assert(dec_map(s) == Some((m, k1))) by {
        lemma_dec_map_enc(m, t);
        assert(s =~= enc_map(m) + t);
    }
    assert(s.skip(k1) == t) by {
        assert(s.skip(k1) =~= t);
    }
    assert(s.skip(k1 + k2) == t.skip(k2)) by {
        assert(s.skip(k1 + k2) =~= t.skip(k2));
    }
    assert(s.skip(k1 + k2 + k3) == t.skip(k2 + k3)) by {
        assert(s.skip(k1 + k2 + k3) =~= t.skip(k2 + k3));
    }
}

/// Law: the forward-compatibility gate of the transition-schema codec.
#[verifier::rlimit(100)]
#[verifier::spinoff_prover]
pub proof fn lemma_transition_rejects_future_payload(
    m: Seq<(u16, Occurences)>,
    c: Seq<(u16, Occurences)>,
    d: Seq<(u16, Occurences)>,
    a: Seq<(u8, u16)>,
    payload: Seq<u8>,
)
    requires
        map_entries_sorted(m),
        m.len() <= 0xffff,
        map_entries_sorted(c),
        c.len() <= 0xffff,
        map_entries_sorted(d),
        d.len() <= 0xffff,
        abi_entries_sorted(a),
        a.len() <= 0xffff,
        0 < payload.len() <= 0xffff,
    ensures
        dec_transition(enc_map(m) + enc_map(c) + enc_map(d) + enc_abi(a) + enc_bytes(payload))
            == TransitionDecode::Unsupported,
{
    let s = enc_map(m) + enc_map(c) + enc_map(d) + enc_abi(a) + enc_bytes(payload);
    let em = enc_map(m);
    let ec = enc_map(c);
    let t = enc_map(d) + (enc_abi(a) + enc_bytes(payload));
    let k1 = em.len() as int;
    let k2 = ec.len() as int;
    let k3 = enc_map(d).len() as int;
    let k4 = enc_abi(a).len() as int;
    lemma_dec_schema_tail(d, a, payload);
    assert(s =~= em + (ec + t));
    lemma_dec_map_enc(m, ec + t);
    vstd::seq_lib::lemma_seq_append_take_skip(em, ec + t, k1);
    lemma_dec_map_enc(c, t);
    vstd::seq_lib::lemma_seq_append_take_skip(ec, t, k2);
    vstd::seq_lib::lemma_seq_skip_of_skip(s, k1, k2);
    assert(s.skip(k1 + k2) == t);
    vstd::seq_lib::lemma_seq_skip_of_skip(s, k1 + k2, k3);
    assert(s.skip(k1 + k2 + k3) == t.skip(k3));
    vstd::seq_lib::lemma_seq_skip_of_skip(s, k1 + k2, k3 + k4);
    assert(s.skip(k1 + k2 + k3 + k4) == t.skip(k3 + k4));
}


/// Law: the wire order of map keys is strictly ascending. Whatever order the
/// entries of a map were inserted in, its entries are held and encoded in
/// ascending key order, and a byte stream whose entries carry any other key
/// order never decodes as a map.
pub proof fn lemma_decoded_keys_ascending(s: Seq<u8>)
    ensures
        dec_map(s) matches Some((es, c)) ==> map_entries_sorted(es),
        dec_abi(s) matches Some((es, c)) ==> abi_entries_sorted(es),
{
    match dec_u16(s) {
        Option::None => {},
        Option::Some((n, c)) => {
            lemma_dec_map_entries_props(s.skip(c), n as nat, 0);
            lemma_dec_abi_entries_props(s.skip(c), n as nat, 0);
        },
    }
}

} // verus!
