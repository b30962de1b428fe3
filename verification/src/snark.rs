//! The container for a finished proof: its public instances grouped by
//! instance column, the opaque proof bytes, and a byte codec for the
//! persisted form that round-trips exactly. A JSON interchange form lives
//! outside the library on a mirror type; its wire shape carries each raw
//! element as a pair of 128-bit halves, not the backend's own field-element
//! serialization.

use vstd::prelude::*;
use vstd::bytes::*;
use vstd::slice::slice_subrange;

verus! {

/// The transcript kind a proof was produced for.
#[derive(Clone, Copy, Debug, PartialEq, Eq, Structural)]
pub enum TranscriptType {
    EVM,
}

impl Default for TranscriptType {
    /// The only transcript kind currently supported.
    fn default() -> (r: TranscriptType)
        ensures
            r == TranscriptType::EVM,
    {
        TranscriptType::EVM
    }
}

/// The byte and instance range of `proof` belonging to one output, used when
/// proofs are split for aggregation. Advisory: consumers partition by
/// `[start, end)`; the container does not validate the range.
#[derive(Clone, Copy, Debug, PartialEq, Eq, Structural)]
pub struct ProofSplitCommit {
    pub start: usize,
    pub end: usize,
}

/// A raw field element as four 64-bit words would be: here two 128-bit
/// halves, little-endian (`lo` first). The container treats it as opaque;
/// reduction modulo the field is the backend's concern.
#[derive(Clone, Copy, Debug, PartialEq, Eq, Hash, Structural)]
pub struct Felt {
    pub lo: u128,
    pub hi: u128,
}

/// A persisted proof could not be decoded.
#[derive(Clone, Copy, Debug, PartialEq, Eq, Structural)]
pub enum DeserializeError {
    /// The bytes do not form a well-formed persisted proof.
    MalformedData,
}

/// An application proof with its public instances, ready for aggregation.
/// `protocol`, `transcript_type` and `split` are not persisted; they are
/// reconstructed from context on load.
#[derive(Clone, Debug, PartialEq)]
pub struct Snark {
    /// Protocol descriptor, recomputed from settings; not persisted.
    pub protocol: String,
    /// Public instances, grouped by instance column.
    pub instances: Vec<Vec<Felt>>,
    /// The proof, an opaque byte string from the backend.
    pub proof: Vec<u8>,
    /// Transcript kind; not persisted.
    pub transcript_type: TranscriptType,
    /// Split-proof range, if this proof is part of an aggregation.
    pub split: Option<ProofSplitCommit>,
}

/// The instances as a sequence of per-column sequences.
pub open spec fn instances_view(instances: Seq<Vec<Felt>>) -> Seq<Seq<Felt>> {
    instances.map_values(|c: Vec<Felt>| c@)
}

/// One field element, 32 bytes: `lo` then `hi`, little-endian.
pub open spec fn felt_ser(f: Felt) -> Seq<u8> {
    spec_u128_to_le_bytes(f.lo) + spec_u128_to_le_bytes(f.hi)
}

/// A column's elements, in order.
pub open spec fn felts_ser(col: Seq<Felt>) -> Seq<u8>
    decreases col.len(),
{
    if col.len() == 0 {
        Seq::empty()
    } else {
        felt_ser(col[0]) + felts_ser(col.drop_first())
    }
}

/// One instance column: its length, then its elements.
pub open spec fn col_ser(col: Seq<Felt>) -> Seq<u8> {
    spec_u64_to_le_bytes(col.len() as u64) + felts_ser(col)
}

/// The instance columns, in order.
pub open spec fn cols_ser(cols: Seq<Seq<Felt>>) -> Seq<u8>
    decreases cols.len(),
{
    if cols.len() == 0 {
        Seq::empty()
    } else {
        col_ser(cols[0]) + cols_ser(cols.drop_first())
    }
}

/// The persisted form: the number of instance columns, the columns, the
/// proof length, and the proof bytes.
pub open spec fn snark_ser(cols: Seq<Seq<Felt>>, proof: Seq<u8>) -> Seq<u8> {
    spec_u64_to_le_bytes(cols.len() as u64) + cols_ser(cols) + spec_u64_to_le_bytes(
        proof.len() as u64,
    ) + proof
}

/// Reads a little-endian `u64` at `pos`.
pub open spec fn sp_u64(b: Seq<u8>, pos: int) -> Option<(u64, int)> {
    if 0 <= pos && pos + 8 <= b.len() {
        Some((spec_u64_from_le_bytes(b.subrange(pos, pos + 8)), pos + 8))
    } else {
        None
    }
}

/// Reads one field element at `pos`.
pub open spec fn sp_felt(b: Seq<u8>, pos: int) -> Option<(Felt, int)> {
    if 0 <= pos && pos + 32 <= b.len() {
        Some(
            (
                Felt {
                    lo: spec_u128_from_le_bytes(b.subrange(pos, pos + 16)),
                    hi: spec_u128_from_le_bytes(b.subrange(pos + 16, pos + 32)),
                },
                pos + 32,
            ),
        )
    } else {
        None
    }
}

/// Reads `m` field elements at `pos`.
pub open spec fn sp_felts(b: Seq<u8>, pos: int, m: nat) -> Option<(Seq<Felt>, int)>
    decreases m,
{
    if m == 0 {
        Some((Seq::empty(), pos))
    } else {
        match sp_felt(b, pos) {
            None => None,
            Some(fp) => match sp_felts(b, fp.1, (m - 1) as nat) {
                None => None,
                Some(rest) => Some((seq![fp.0] + rest.0, rest.1)),
            },
        }
    }
}

/// Reads one length-prefixed column at `pos`.
pub open spec fn sp_col(b: Seq<u8>, pos: int) -> Option<(Seq<Felt>, int)> {
    match sp_u64(b, pos) {
        None => None,
        Some(np) => sp_felts(b, np.1, np.0 as nat),
    }
}

/// Reads `m` columns at `pos`.
pub open spec fn sp_cols(b: Seq<u8>, pos: int, m: nat) -> Option<(Seq<Seq<Felt>>, int)>
    decreases m,
{
    if m == 0 {
        Some((Seq::empty(), pos))
    } else {
        match sp_col(b, pos) {
            None => None,
            Some(cp) => match sp_cols(b, cp.1, (m - 1) as nat) {
                None => None,
                Some(rest) => Some((seq![cp.0] + rest.0, rest.1)),
            },
        }
    }
}

/// Decodes a whole persisted proof: instance columns and proof bytes. The
/// input must be consumed exactly.
pub open spec fn sp_snark(b: Seq<u8>) -> Option<(Seq<Seq<Felt>>, Seq<u8>)> {
    match sp_u64(b, 0) {
        None => None,
        Some(np) => match sp_cols(b, np.1, np.0 as nat) {
            None => None,
            Some(cp) => match sp_u64(b, cp.1) {
                None => None,
                Some(lp) => {
                    if lp.1 + lp.0 == b.len() {
                        Some((cp.0, b.subrange(lp.1, lp.1 + lp.0)))
                    } else {
                        None
                    }
                },
            },
        },
    }
}

/// Element totals of the encodings.
proof fn lemma_felts_ser_len(col: Seq<Felt>)
    ensures
        felts_ser(col).len() == 32 * col.len(),
    decreases col.len(),
{
    lemma_auto_spec_u128_to_from_le_bytes();
    if col.len() > 0 {
        lemma_felts_ser_len(col.drop_first());
    }
}

/// Element totals of the encodings.
proof fn lemma_cols_ser_len(cols: Seq<Seq<Felt>>)
    ensures
        cols_ser(cols).len() == cols_ser_len(cols),
        cols_ser_len(cols) >= 0,
    decreases cols.len(),
{
    lemma_auto_spec_u64_to_from_le_bytes();
    if cols.len() > 0 {
        lemma_felts_ser_len(cols[0]);
        lemma_cols_ser_len(cols.drop_first());
    }
}

/// The length of the encoded columns.
pub open spec fn cols_ser_len(cols: Seq<Seq<Felt>>) -> int
    decreases cols.len(),
{
    if cols.len() == 0 {
        0
    } else {
        8 + 32 * cols[0].len() + cols_ser_len(cols.drop_first())
    }
}

/// Reading `col.len()` elements from the encoding of `col` embedded in `b`
/// at `pos` yields `col`.
proof fn lemma_sp_felts_of_ser(b: Seq<u8>, pos: int, col: Seq<Felt>)
    requires
        0 <= pos,
        pos + 32 * col.len() <= b.len(),
        b.subrange(pos, pos + 32 * col.len()) == felts_ser(col),
    ensures
        sp_felts(b, pos, col.len()) == Some((col, pos + 32 * col.len())),
    decreases col.len(),
{
    lemma_auto_spec_u128_to_from_le_bytes();
    if col.len() == 0 {
        assert(Seq::<Felt>::empty() =~= col);
    } else {
        let f = col[0];
        let rest = col.drop_first();
        lemma_felts_ser_len(rest);
        assert(b.subrange(pos, pos + 16) =~= spec_u128_to_le_bytes(f.lo)) by {
            assert forall|i: int| 0 <= i < 16 implies #[trigger] b.subrange(pos, pos + 16)[i]
                == spec_u128_to_le_bytes(f.lo)[i] by {
                assert(b.subrange(pos, pos + 32 * col.len())[i] == felts_ser(col)[i]);
            }
        }
        assert(b.subrange(pos + 16, pos + 32) =~= spec_u128_to_le_bytes(f.hi)) by {
            assert forall|i: int| 0 <= i < 16 implies #[trigger] b.subrange(pos + 16, pos + 32)[i]
                == spec_u128_to_le_bytes(f.hi)[i] by {
                assert(b.subrange(pos, pos + 32 * col.len())[i + 16] == felts_ser(col)[i + 16]);
            }
        }
        assert(sp_felt(b, pos) == Some((f, pos + 32)));
        assert(b.subrange(pos + 32, pos + 32 + 32 * rest.len()) =~= felts_ser(rest)) by {
            assert forall|i: int| 0 <= i < 32 * rest.len() implies #[trigger] b.subrange(
                pos + 32,
                pos + 32 + 32 * rest.len(),
            )[i] == felts_ser(rest)[i] by {
                assert(b.subrange(pos, pos + 32 * col.len())[i + 32] == felts_ser(col)[i + 32]);
            }
        }
        lemma_sp_felts_of_ser(b, pos + 32, rest);
        assert(seq![f] + rest =~= col);
    }
}

/// Reading `cols.len()` columns from the encoding of `cols` embedded in `b`
/// at `pos` yields `cols`.
proof fn lemma_sp_cols_of_ser(b: Seq<u8>, pos: int, cols: Seq<Seq<Felt>>)
    requires
        0 <= pos,
        forall|j: int| 0 <= j < cols.len() ==> (#[trigger] cols[j]).len() <= 0xffffffffffffffff,
        pos + cols_ser_len(cols) <= b.len(),
        b.subrange(pos, pos + cols_ser_len(cols)) == cols_ser(cols),
    ensures
        sp_cols(b, pos, cols.len()) == Some((cols, pos + cols_ser_len(cols))),
    decreases cols.len(),
{
    lemma_auto_spec_u64_to_from_le_bytes();
    lemma_cols_ser_len(cols);
    if cols.len() == 0 {
        assert(Seq::<Seq<Felt>>::empty() =~= cols);
    } else {
        let c = cols[0];
        let rest = cols.drop_first();
        lemma_felts_ser_len(c);
        lemma_cols_ser_len(rest);
        assert(b.subrange(pos, pos + 8) =~= spec_u64_to_le_bytes(c.len() as u64)) by {
            assert forall|i: int| 0 <= i < 8 implies #[trigger] b.subrange(pos, pos + 8)[i]
                == spec_u64_to_le_bytes(c.len() as u64)[i] by {
                assert(b.subrange(pos, pos + cols_ser_len(cols))[i] == cols_ser(cols)[i]);
            }
        }
        assert(sp_u64(b, pos) == Some((c.len() as u64, pos + 8)));
        assert(b.subrange(pos + 8, pos + 8 + 32 * c.len()) =~= felts_ser(c)) by {
            assert forall|i: int| 0 <= i < 32 * c.len() implies #[trigger] b.subrange(
                pos + 8,
                pos + 8 + 32 * c.len(),
            )[i] == felts_ser(c)[i] by {
                assert(b.subrange(pos, pos + cols_ser_len(cols))[i + 8] == cols_ser(cols)[i + 8]);
            }
        }
        lemma_sp_felts_of_ser(b, pos + 8, c);
        let pos2 = pos + 8 + 32 * c.len();
        assert(b.subrange(pos2, pos2 + cols_ser_len(rest)) =~= cols_ser(rest)) by {
            assert forall|i: int| 0 <= i < cols_ser_len(rest) implies #[trigger] b.subrange(
                pos2,
                pos2 + cols_ser_len(rest),
            )[i] == cols_ser(rest)[i] by {
                assert(b.subrange(pos, pos + cols_ser_len(cols))[i + 8 + 32 * c.len()]
                    == cols_ser(cols)[i + 8 + 32 * c.len()]);
            }
        }
        lemma_sp_cols_of_ser(b, pos2, rest);
        assert(seq![c] + rest =~= cols);
    }
}

/// Law: decoding an encoded proof returns the proof: for any instance
/// columns and proof bytes whose lengths fit the length prefixes,
/// `sp_snark(snark_ser(cols, proof)) == Some((cols, proof))`.
pub proof fn lemma_snark_round_trip(cols: Seq<Seq<Felt>>, proof: Seq<u8>)
    requires
        cols.len() <= 0xffffffffffffffff,
        proof.len() <= 0xffffffffffffffff,
        forall|j: int| 0 <= j < cols.len() ==> (#[trigger] cols[j]).len() <= 0xffffffffffffffff,
    ensures
        sp_snark(snark_ser(cols, proof)) == Some((cols, proof)),
{
    lemma_auto_spec_u64_to_from_le_bytes();
    lemma_cols_ser_len(cols);
    let b = snark_ser(cols, proof);
    let clen = cols_ser_len(cols);
    assert(b.len() == 8 + clen + 8 + proof.len());
    assert(b.subrange(0, 8) =~= spec_u64_to_le_bytes(cols.len() as u64));
    assert(sp_u64(b, 0) == Some((cols.len() as u64, 8int)));
    assert(b.subrange(8, 8 + clen) =~= cols_ser(cols));
    lemma_sp_cols_of_ser(b, 8, cols);
    assert(b.subrange(8 + clen, 8 + clen + 8) =~= spec_u64_to_le_bytes(proof.len() as u64));
    assert(sp_u64(b, 8 + clen) == Some((proof.len() as u64, 8 + clen + 8)));
    assert(b.subrange(8 + clen + 8, 8 + clen + 8 + proof.len()) =~= proof);
}

/// Appending one element appends its encoding.
proof fn lemma_felts_ser_push(col: Seq<Felt>, f: Felt)
    ensures
        felts_ser(col.push(f)) == felts_ser(col) + felt_ser(f),
    decreases col.len(),
{
    lemma_auto_spec_u128_to_from_le_bytes();
    if col.len() == 0 {
        assert(col.push(f).drop_first() =~= Seq::<Felt>::empty());
        assert(col.push(f)[0] == f);
        assert(felts_ser(Seq::<Felt>::empty()) == Seq::<u8>::empty());
        assert(felts_ser(col.push(f)) == felt_ser(f) + Seq::<u8>::empty());
        assert(felts_ser(col.push(f)) =~= felts_ser(col) + felt_ser(f));
    } else {
        assert(col.push(f).drop_first() =~= col.drop_first().push(f));
        lemma_felts_ser_push(col.drop_first(), f);
        lemma_felts_ser_len(col);
        lemma_felts_ser_len(col.drop_first());
        assert(col.push(f)[0] == col[0]);
        assert(felts_ser(col.push(f)) == felt_ser(col[0]) + felts_ser(col.drop_first().push(f)));
        assert((felt_ser(col[0]) + (felts_ser(col.drop_first()) + felt_ser(f))) =~= ((felt_ser(
            col[0],
        ) + felts_ser(col.drop_first())) + felt_ser(f)));
        assert(felts_ser(col) == felt_ser(col[0]) + felts_ser(col.drop_first()));
        assert(felts_ser(col.push(f)) == felts_ser(col) + felt_ser(f));
    }
}

/// Appending one column appends its encoding.
proof fn lemma_cols_ser_push(cols: Seq<Seq<Felt>>, c: Seq<Felt>)
    ensures
        cols_ser(cols.push(c)) == cols_ser(cols) + col_ser(c),
    decreases cols.len(),
{
    lemma_auto_spec_u64_to_from_le_bytes();
    lemma_auto_spec_u128_to_from_le_bytes();
    lemma_felts_ser_len(c);
    if cols.len() == 0 {
        assert(cols.push(c).drop_first() =~= Seq::<Seq<Felt>>::empty());
        assert(cols.push(c)[0] == c);
        assert(cols_ser(Seq::<Seq<Felt>>::empty()) == Seq::<u8>::empty());
        assert(cols_ser(cols.push(c)) == col_ser(c) + Seq::<u8>::empty());
        assert(cols_ser(cols.push(c)) =~= cols_ser(cols) + col_ser(c));
    } else {
        assert(cols.push(c).drop_first() =~= cols.drop_first().push(c));
        lemma_cols_ser_push(cols.drop_first(), c);
        lemma_cols_ser_len(cols);
        lemma_cols_ser_len(cols.drop_first());
        lemma_felts_ser_len(cols[0]);
        assert(cols.push(c)[0] == cols[0]);
        assert(cols_ser(cols.push(c)) == col_ser(cols[0]) + cols_ser(cols.drop_first().push(c)));
        assert((col_ser(cols[0]) + (cols_ser(cols.drop_first()) + col_ser(c))) =~= ((col_ser(
            cols[0],
        ) + cols_ser(cols.drop_first())) + col_ser(c)));
        assert(cols_ser(cols) == col_ser(cols[0]) + cols_ser(cols.drop_first()));
        assert(cols_ser(cols.push(c)) == cols_ser(cols) + col_ser(c));
    }
}

impl Snark {
    /// Encodes the instances and the proof into the persisted byte form.
    pub fn serialize(&self) -> (r: Vec<u8>)
        ensures
            r@ == snark_ser(instances_view(self.instances@), self.proof@),
    {
        let n = self.instances.len();
        let mut out: Vec<u8> = u64_to_le_bytes(n as u64);
        proof {
            assert(instances_view(self.instances@).len() == n);
            assert(instances_view(self.instances@.take(0)) =~= Seq::<Seq<Felt>>::empty());
            assert(out@ =~= spec_u64_to_le_bytes(n as u64) + cols_ser(
                instances_view(self.instances@.take(0)),
            ));
        }
        let mut i: usize = 0;
        while i < n
            invariant
                i <= n,
                n == self.instances@.len(),
                out@ == spec_u64_to_le_bytes(n as u64) + cols_ser(
                    instances_view(self.instances@.take(i as int)),
                ),
            decreases n - i,
        {
            let col = &self.instances[i];
            let m = col.len();
            let mut lenbytes = u64_to_le_bytes(m as u64);
            out.append(&mut lenbytes);
            let ghost base = out@;
            let mut j: usize = 0;
            while j < m
                invariant
                    j <= m,
                    i < n,
                    n == self.instances@.len(),
                    m == col@.len(),
                    col == &self.instances@[i as int],
                    out@ == base + felts_ser(col@.take(j as int)),
                decreases m - j,
            {
                let f = col[j];
                let mut lob = u128_to_le_bytes(f.lo);
                out.append(&mut lob);
                let mut hib = u128_to_le_bytes(f.hi);
                out.append(&mut hib);
                proof {
                    lemma_felts_ser_push(col@.take(j as int), f);
                    assert(col@.take(j + 1) =~= col@.take(j as int).push(f));
                    assert(out@ =~= base + felts_ser(col@.take(j + 1)));
                }
                j = j + 1;
            }
            proof {
                assert(col@.take(m as int) =~= col@);
                lemma_cols_ser_push(instances_view(self.instances@.take(i as int)), col@);
                assert(instances_view(self.instances@.take(i + 1)) =~= instances_view(
                    self.instances@.take(i as int),
                ).push(col@));
                assert(out@ =~= spec_u64_to_le_bytes(n as u64) + cols_ser(
                    instances_view(self.instances@.take(i + 1)),
                ));
            }
            i = i + 1;
        }
        proof {
            assert(self.instances@.take(n as int) =~= self.instances@);
        }
        let plen = self.proof.len();
        let mut plb = u64_to_le_bytes(plen as u64);
        out.append(&mut plb);
        let ghost before_proof = out@;
        let mut k: usize = 0;
        while k < plen
            invariant
                k <= plen,
                plen == self.proof@.len(),
                out@ == before_proof + self.proof@.take(k as int),
            decreases plen - k,
        {
            out.push(self.proof[k]);
            proof {
                assert(out@ =~= before_proof + self.proof@.take(k + 1));
            }
            k = k + 1;
        }
        proof {
            assert(self.proof@.take(plen as int) =~= self.proof@);
            assert(out@ =~= snark_ser(instances_view(self.instances@), self.proof@));
        }
        out
    }

    /// Decodes a persisted proof. Fails with `DeserializeError` exactly when
    /// the bytes are not a well-formed persisted proof. The fields that are
    /// not persisted come back empty: no protocol, the default transcript,
    /// no split.
    pub fn load(bytes: &[u8]) -> (r: Result<Snark, DeserializeError>)
        ensures
            match r {
                Ok(s) => {
                    &&& sp_snark(bytes@) matches Some(v) && instances_view(s.instances@) == v.0
                        && s.proof@ == v.1
                    &&& s.protocol@ == Seq::<char>::empty()
                    &&& s.transcript_type == TranscriptType::EVM
                    &&& s.split is None
                },
                Err(e) => sp_snark(bytes@) is None && e == DeserializeError::MalformedData,
            },
    {
        let (ncols, p1) = match rd_u64(bytes, 0) {
            None => {
                return Err(DeserializeError::MalformedData);
            },
            Some(v) => v,
        };
        let (instances, p2) = match rd_cols(bytes, p1, ncols) {
            None => {
                return Err(DeserializeError::MalformedData);
            },
            Some(v) => v,
        };
        let (plen, p3) = match rd_u64(bytes, p2) {
            None => {
                return Err(DeserializeError::MalformedData);
            },
            Some(v) => v,
        };
        if (p3 as u128) + (plen as u128) != bytes.len() as u128 {
            return Err(DeserializeError::MalformedData);
        }
        let pend = p3 + (plen as usize);
        let proof_slice = slice_subrange(bytes, p3, pend);
        let proof = vstd::slice::slice_to_vec(proof_slice);
        Ok(
            Snark {
                protocol: String::new(),
                instances,
                proof,
                transcript_type: TranscriptType::EVM,
                split: None,
            },
        )
    }

    /// Arranges the instances as a sequence of per-column sequences for the
    /// backend's verification call; the formatting of that view for
    /// diagnostics is the caller's concern.
    pub fn format_instances(&self) -> (r: Vec<Vec<Felt>>)
        ensures
            instances_view(r@) == instances_view(self.instances@),
    {
        let n = self.instances.len();
        let mut out: Vec<Vec<Felt>> = Vec::new();
        let mut i: usize = 0;
        while i < n
            invariant
                i <= n,
                n == self.instances@.len(),
                out@.len() == i,
                forall|t: int| 0 <= t < i ==> (#[trigger] out@[t])@ == self.instances@[t]@,
            decreases n - i,
        {
            let col = &self.instances[i];
            let m = col.len();
            let mut c2: Vec<Felt> = Vec::new();
            let mut j: usize = 0;
            while j < m
                invariant
                    j <= m,
                    i < n,
                    n == self.instances@.len(),
                    m == col@.len(),
                    col == &self.instances@[i as int],
                    c2@ == col@.take(j as int),
                decreases m - j,
            {
                c2.push(col[j]);
                proof {
                    assert(c2@ =~= col@.take(j + 1));
                }
                j = j + 1;
            }
            proof {
                assert(col@.take(m as int) =~= col@);
            }
            out.push(c2);
            i = i + 1;
        }
        proof {
            assert(instances_view(out@) =~= instances_view(self.instances@));
        }
        out
    }
}

/// Reads a little-endian `u64` at `pos`.
fn rd_u64(b: &[u8], pos: usize) -> (r: Option<(u64, usize)>)
    ensures
        match r {
            Some(v) => sp_u64(b@, pos as int) == Some((v.0, v.1 as int)),
            None => sp_u64(b@, pos as int) is None,
        },
{
    if b.len() >= 8 && pos <= b.len() - 8 {
        let s = slice_subrange(b, pos, pos + 8);
        Some((u64_from_le_bytes(s), pos + 8))
    } else {
        None
    }
}

/// Reads one field element at `pos`.
fn rd_felt(b: &[u8], pos: usize) -> (r: Option<(Felt, usize)>)
    ensures
        match r {
            Some(v) => sp_felt(b@, pos as int) == Some((v.0, v.1 as int)),
            None => sp_felt(b@, pos as int) is None,
        },
{
    if b.len() >= 32 && pos <= b.len() - 32 {
        let lo = u128_from_le_bytes(slice_subrange(b, pos, pos + 16));
        let hi = u128_from_le_bytes(slice_subrange(b, pos + 16, pos + 32));
        Some((Felt { lo, hi }, pos + 32))
    } else {
        None
    }
}

/// Reads `m` field elements at `pos`.
fn rd_felts(b: &[u8], pos: usize, m: u64) -> (r: Option<(Vec<Felt>, usize)>)
    ensures
        match r {
            Some(v) => sp_felts(b@, pos as int, m as nat) == Some((v.0@, v.1 as int)),
            None => sp_felts(b@, pos as int, m as nat) is None,
        },
    decreases m,
{
    if m == 0 {
        let empty: Vec<Felt> = Vec::new();
        proof {
            assert(empty@ =~= Seq::<Felt>::empty());
        }
        Some((empty, pos))
    } else {
        match rd_felt(b, pos) {
            None => None,
            Some((f, p2)) => {
                match rd_felts(b, p2, m - 1) {
                    None => None,
                    Some((mut v, p3)) => {
                        v.insert(0, f);
                        proof {
                            let sp = sp_felts(b@, pos as int, m as nat);
                            assert(sp matches Some(x) && x.0 =~= v@);
                        }
                        Some((v, p3))
                    },
                }
            },
        }
    }
}

/// Reads one length-prefixed column at `pos`.
fn rd_col(b: &[u8], pos: usize) -> (r: Option<(Vec<Felt>, usize)>)
    ensures
        match r {
            Some(v) => sp_col(b@, pos as int) == Some((v.0@, v.1 as int)),
            None => sp_col(b@, pos as int) is None,
        },
{
    match rd_u64(b, pos) {
        None => None,
        Some((n, p2)) => rd_felts(b, p2, n),
    }
}

/// Reads `m` columns at `pos`.
fn rd_cols(b: &[u8], pos: usize, m: u64) -> (r: Option<(Vec<Vec<Felt>>, usize)>)
    ensures
        match r {
            Some(v) => sp_cols(b@, pos as int, m as nat) == Some(
                (instances_view(v.0@), v.1 as int),
            ),
            None => sp_cols(b@, pos as int, m as nat) is None,
        },
    decreases m,
{
    if m == 0 {
        let empty: Vec<Vec<Felt>> = Vec::new();
        proof {
            assert(instances_view(empty@) =~= Seq::<Seq<Felt>>::empty());
        }
        Some((empty, pos))
    } else {
        match rd_col(b, pos) {
            None => None,
            Some((c, p2)) => {
                match rd_cols(b, p2, m - 1) {
                    None => None,
                    Some((mut v, p3)) => {
                        v.insert(0, c);
                        proof {
                            let sp = sp_cols(b@, pos as int, m as nat);
                            assert(sp matches Some(x) && x.0 =~= instances_view(v@));
                        }
                        Some((v, p3))
                    },
                }
            },
        }
    }
}

} // verus!
