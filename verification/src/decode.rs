//! Stream decoder: turns the acquisition device's escape-coded byte stream
//! into per-revolution sequences of flux-transition intervals.
//!
//! The grammar is dispatched one leading tag byte at a time:
//! - `0x00..=0x07`: two-byte interval, high bits in the tag, one low byte;
//! - `0x08` / `0x09` / `0x0A`: no-ops consuming zero / one / two extra bytes;
//! - `0x0B`: 16-bit overflow marker, unsupported, decoding fails;
//! - `0x0C`: three-byte interval (high byte, low byte);
//! - `0x0D`: out-of-band record: a type byte, a little-endian 16-bit size,
//!   then `size` payload bytes. Types `0x1`/`0x4` are discarded, type `0x2`
//!   seals the current revolution, type `0x3` ends the stream immediately,
//!   anything else is an invalid record;
//! - `0x0E..=0xFF`: one-byte interval equal to the tag itself.
//!
//! When the buffer runs out at a tag boundary, whatever has accumulated is
//! emitted as one final (possibly empty) revolution; running out in the middle
//! of a multi-byte code is an error naming that code.

use vstd::prelude::*;

verus! {

/// Why decoding a byte stream failed.
#[derive(Clone, Copy, Debug, PartialEq, Eq, Structural)]
pub enum DecodeError {
    /// The buffer ended before the low byte of a two-byte interval code.
    EofFlux2,
    /// The buffer ended inside a one-byte no-op code.
    EofNop2,
    /// The buffer ended inside a two-byte no-op code.
    EofNop3,
    /// The buffer ended before the two extra bytes of a three-byte interval code.
    EofFlux3,
    /// The buffer ended inside an out-of-band record's header or payload.
    EofOob,
    /// The 16-bit overflow marker code is not supported.
    Ovl16Unsupported,
    /// An out-of-band record carried an invalid type.
    InvalidOob,
}

impl DecodeError {
    /// A short description of the failure, naming the construct that was
    /// being decoded, for diagnostics at the edge.
    pub fn message(&self) -> (r: &'static str)
        ensures
            r@ == (match *self {
                DecodeError::EofFlux2 => "EOF during Flux2"@,
                DecodeError::EofNop2 => "EOF during NOP2"@,
                DecodeError::EofNop3 => "EOF during NOP3"@,
                DecodeError::EofFlux3 => "EOF during Flux3"@,
                DecodeError::EofOob => "EOF during OOB"@,
                DecodeError::Ovl16Unsupported => "OVL16 code is not supported"@,
                DecodeError::InvalidOob => "Invalid OOB"@,
            }),
    {
        match self {
            DecodeError::EofFlux2 => "EOF during Flux2",
            DecodeError::EofNop2 => "EOF during NOP2",
            DecodeError::EofNop3 => "EOF during NOP3",
            DecodeError::EofFlux3 => "EOF during Flux3",
            DecodeError::EofOob => "EOF during OOB",
            DecodeError::Ovl16Unsupported => "OVL16 code is not supported",
            DecodeError::InvalidOob => "Invalid OOB",
        }
    }
}

/// One step-at-a-time decoding of `bytes`, with `cur` the intervals
/// accumulated for the revolution in progress and `acc` the revolutions
/// already sealed. This spec-level decoder is the reference the executable
/// decoder is proved against.
pub open spec fn spec_decode(bytes: Seq<u8>, cur: Seq<u16>, acc: Seq<Seq<u16>>) -> Result<
    Seq<Seq<u16>>,
    DecodeError,
>
    decreases bytes.len(),
{
    if bytes.len() == 0 {
        Ok(acc.push(cur))
    } else {
        let tag = bytes[0];
        if tag <= 0x07 {
            if bytes.len() < 2 {
                Err(DecodeError::EofFlux2)
            } else {
                spec_decode(
                    bytes.skip(2),
                    cur.push(((tag as int) * 256 + bytes[1] as int) as u16),
                    acc,
                )
            }
        } else if tag == 0x08 {
            spec_decode(bytes.skip(1), cur, acc)
        } else if tag == 0x09 {
            if bytes.len() < 2 {
                Err(DecodeError::EofNop2)
            } else {
                spec_decode(bytes.skip(2), cur, acc)
            }
        } else if tag == 0x0a {
            if bytes.len() < 3 {
                Err(DecodeError::EofNop3)
            } else {
                spec_decode(bytes.skip(3), cur, acc)
            }
        } else if tag == 0x0b {
            Err(DecodeError::Ovl16Unsupported)
        } else if tag == 0x0c {
            if bytes.len() < 3 {
                Err(DecodeError::EofFlux3)
            } else {
                spec_decode(
                    bytes.skip(3),
                    cur.push(((bytes[1] as int) * 256 + bytes[2] as int) as u16),
                    acc,
                )
            }
        } else if tag == 0x0d {
            if bytes.len() < 4 {
                Err(DecodeError::EofOob)
            } else {
                let oob_type = bytes[1];
                let size = (bytes[3] as int) * 256 + bytes[2] as int;
                if oob_type == 0x1 || oob_type == 0x4 {
                    if bytes.len() < 4 + size {
                        Err(DecodeError::EofOob)
                    } else {
                        spec_decode(bytes.skip(4 + size), cur, acc)
                    }
                } else if oob_type == 0x2 {
                    if bytes.len() < 4 + size {
                        Err(DecodeError::EofOob)
                    } else {
                        spec_decode(bytes.skip(4 + size), Seq::empty(), acc.push(cur))
                    }
                } else if oob_type == 0x3 {
                    Ok(acc.push(cur))
                } else {
                    Err(DecodeError::InvalidOob)
                }
            }
        } else {
            spec_decode(bytes.skip(1), cur.push(tag as u16), acc)
        }
    }
}

/// The decoded revolutions of a whole byte stream.
pub open spec fn spec_decode_stream(bytes: Seq<u8>) -> Result<Seq<Seq<u16>>, DecodeError> {
    spec_decode(bytes, Seq::empty(), Seq::empty())
}

/// All interval values held by `revs`, concatenated in order.
pub open spec fn flat(revs: Seq<Seq<u16>>) -> Seq<u16>
    decreases revs.len(),
{
    if revs.len() == 0 {
        Seq::empty()
    } else {
        revs[0] + flat(revs.drop_first())
    }
}

/// The interval values the grammar emits from `bytes`, in order, up to the
/// point where decoding stops (stream end, exhaustion, or a malformed code).
pub open spec fn spec_intervals(bytes: Seq<u8>) -> Seq<u16>
    decreases bytes.len(),
{
    if bytes.len() == 0 {
        Seq::empty()
    } else {
        let tag = bytes[0];
        if tag <= 0x07 {
            if bytes.len() < 2 {
                Seq::empty()
            } else {
                seq![((tag as int) * 256 + bytes[1] as int) as u16] + spec_intervals(bytes.skip(2))
            }
        } else if tag == 0x08 {
            spec_intervals(bytes.skip(1))
        } else if tag == 0x09 {
            if bytes.len() < 2 {
                Seq::empty()
            } else {
                spec_intervals(bytes.skip(2))
            }
        } else if tag == 0x0a {
            if bytes.len() < 3 {
                Seq::empty()
            } else {
                spec_intervals(bytes.skip(3))
            }
        } else if tag == 0x0b {
            Seq::empty()
        } else if tag == 0x0c {
            if bytes.len() < 3 {
                Seq::empty()
            } else {
                seq![((bytes[1] as int) * 256 + bytes[2] as int) as u16] + spec_intervals(
                    bytes.skip(3),
                )
            }
        } else if tag == 0x0d {
            if bytes.len() < 4 {
                Seq::empty()
            } else {
                let oob_type = bytes[1];
                let size = (bytes[3] as int) * 256 + bytes[2] as int;
                if (oob_type == 0x1 || oob_type == 0x2 || oob_type == 0x4) && bytes.len() >= 4
                    + size {
                    spec_intervals(bytes.skip(4 + size))
                } else {
                    Seq::empty()
                }
            }
        } else {
            seq![tag as u16] + spec_intervals(bytes.skip(1))
        }
    }
}

proof fn lemma_flat_push(revs: Seq<Seq<u16>>, r: Seq<u16>)
    ensures
        flat(revs.push(r)) == flat(revs) + r,
    decreases revs.len(),
{
    if revs.len() == 0 {
        let one = revs.push(r);
        assert(one.drop_first() =~= Seq::<Seq<u16>>::empty());
        assert(flat(one.drop_first()) =~= Seq::<u16>::empty());
        assert(flat(one) == one[0] + flat(one.drop_first()));
        assert(one[0] == r);
        assert(flat(one) =~= flat(revs) + r);
    } else {
        let tail = revs.drop_first();
        assert(revs.push(r).drop_first() =~= tail.push(r));
        lemma_flat_push(tail, r);
        assert(flat(revs.push(r)) == revs[0] + flat(tail.push(r)));
        assert(revs[0] + (flat(tail) + r) =~= (revs[0] + flat(tail)) + r);
        assert(flat(revs.push(r)) =~= flat(revs) + r);
    }
}

/// No interval is lost or reordered: whenever decoding succeeds, the
/// concatenation of all produced revolutions is exactly the intervals already
/// sealed in `acc`, then the accumulator `cur`, then every interval the
/// grammar emits from `bytes`, in emission order.
pub proof fn lemma_decode_preserves_intervals(bytes: Seq<u8>, cur: Seq<u16>, acc: Seq<Seq<u16>>)
    requires
        spec_decode(bytes, cur, acc) is Ok,
    ensures
        flat(spec_decode(bytes, cur, acc)->Ok_0) == flat(acc) + cur + spec_intervals(bytes),
    decreases bytes.len(),
{
    if bytes.len() == 0 {
        lemma_flat_push(acc, cur);
        assert(flat(acc) + cur + spec_intervals(bytes) =~= flat(acc) + cur);
    } else {
        let tag = bytes[0];
        if tag <= 0x07 {
            let iv = ((tag as int) * 256 + bytes[1] as int) as u16;
            lemma_decode_preserves_intervals(bytes.skip(2), cur.push(iv), acc);
            assert(flat(acc) + cur.push(iv) + spec_intervals(bytes.skip(2)) =~= flat(acc) + cur
                + spec_intervals(bytes));
        } else if tag == 0x08 {
            lemma_decode_preserves_intervals(bytes.skip(1), cur, acc);
        } else if tag == 0x09 {
            lemma_decode_preserves_intervals(bytes.skip(2), cur, acc);
        } else if tag == 0x0a {
            lemma_decode_preserves_intervals(bytes.skip(3), cur, acc);
        } else if tag == 0x0b {
            // excluded by the requires: this tag always fails
        } else if tag == 0x0c {
            let iv = ((bytes[1] as int) * 256 + bytes[2] as int) as u16;
            lemma_decode_preserves_intervals(bytes.skip(3), cur.push(iv), acc);
            assert(flat(acc) + cur.push(iv) + spec_intervals(bytes.skip(3)) =~= flat(acc) + cur
                + spec_intervals(bytes));
        } else if tag == 0x0d {
            let oob_type = bytes[1];
            let size = (bytes[3] as int) * 256 + bytes[2] as int;
            if oob_type == 0x1 || oob_type == 0x4 {
                lemma_decode_preserves_intervals(bytes.skip(4 + size), cur, acc);
            } else if oob_type == 0x2 {
                lemma_decode_preserves_intervals(bytes.skip(4 + size), Seq::empty(), acc.push(cur));
                lemma_flat_push(acc, cur);
                assert(flat(acc.push(cur)) + Seq::<u16>::empty() + spec_intervals(
                    bytes.skip(4 + size),
                ) =~= flat(acc) + cur + spec_intervals(bytes));
            } else {
                // oob_type == 0x3: the stream ends here and emits no intervals
                lemma_flat_push(acc, cur);
                assert(flat(acc) + cur + spec_intervals(bytes) =~= flat(acc) + cur);
            }
        } else {
            lemma_decode_preserves_intervals(bytes.skip(1), cur.push(tag as u16), acc);
            assert(flat(acc) + cur.push(tag as u16) + spec_intervals(bytes.skip(1)) =~= flat(acc)
                + cur + spec_intervals(bytes));
        }
    }
}

/// A stream that simply runs out of bytes decodes successfully: exhaustion
/// without an explicit stream-end record yields the sealed revolutions plus
/// the final accumulator as one more revolution.
pub proof fn lemma_exhausted_stream_ok(cur: Seq<u16>, acc: Seq<Seq<u16>>)
    ensures
        spec_decode(Seq::empty(), cur, acc) == Ok::<Seq<Seq<u16>>, DecodeError>(acc.push(cur)),
{
}

/// How many revolution-boundary (index) records the grammar consumes from
/// `bytes` before decoding stops.
pub open spec fn spec_index_count(bytes: Seq<u8>) -> nat
    decreases bytes.len(),
{
    if bytes.len() == 0 {
        0
    } else {
        let tag = bytes[0];
        if tag <= 0x07 {
            if bytes.len() < 2 {
                0
            } else {
                spec_index_count(bytes.skip(2))
            }
        } else if tag == 0x08 {
            spec_index_count(bytes.skip(1))
        } else if tag == 0x09 {
            if bytes.len() < 2 {
                0
            } else {
                spec_index_count(bytes.skip(2))
            }
        } else if tag == 0x0a {
            if bytes.len() < 3 {
                0
            } else {
                spec_index_count(bytes.skip(3))
            }
        } else if tag == 0x0b {
            0
        } else if tag == 0x0c {
            if bytes.len() < 3 {
                0
            } else {
                spec_index_count(bytes.skip(3))
            }
        } else if tag == 0x0d {
            if bytes.len() < 4 {
                0
            } else {
                let oob_type = bytes[1];
                let size = (bytes[3] as int) * 256 + bytes[2] as int;
                if oob_type == 0x2 && bytes.len() >= 4 + size {
                    spec_index_count(bytes.skip(4 + size)) + 1
                } else if (oob_type == 0x1 || oob_type == 0x4) && bytes.len() >= 4 + size {
                    spec_index_count(bytes.skip(4 + size))
                } else {
                    0
                }
            }
        } else {
            spec_index_count(bytes.skip(1))
        }
    }
}

/// Decoding never swallows the revolution in progress, and produces exactly
/// one revolution per boundary marker consumed plus the final one: a caller
/// starting from empty accumulators receives `spec_index_count(bytes) + 1`
/// revolutions, always at least one.
pub proof fn lemma_decode_emits_final_revolution(bytes: Seq<u8>, cur: Seq<u16>, acc: Seq<Seq<u16>>)
    requires
        spec_decode(bytes, cur, acc) is Ok,
    ensures
        spec_decode(bytes, cur, acc)->Ok_0.len() == acc.len() + 1 + spec_index_count(bytes),
        spec_decode(bytes, cur, acc)->Ok_0.len() >= acc.len() + 1,
    decreases bytes.len(),
{
    if bytes.len() == 0 {
    } else {
        let tag = bytes[0];
        if tag <= 0x07 {
            lemma_decode_emits_final_revolution(
                bytes.skip(2),
                cur.push(((tag as int) * 256 + bytes[1] as int) as u16),
                acc,
            );
        } else if tag == 0x08 {
            lemma_decode_emits_final_revolution(bytes.skip(1), cur, acc);
        } else if tag == 0x09 {
            lemma_decode_emits_final_revolution(bytes.skip(2), cur, acc);
        } else if tag == 0x0a {
            lemma_decode_emits_final_revolution(bytes.skip(3), cur, acc);
        } else if tag == 0x0b {
        } else if tag == 0x0c {
            lemma_decode_emits_final_revolution(
                bytes.skip(3),
                cur.push(((bytes[1] as int) * 256 + bytes[2] as int) as u16),
                acc,
            );
        } else if tag == 0x0d {
            let oob_type = bytes[1];
            let size = (bytes[3] as int) * 256 + bytes[2] as int;
            if oob_type == 0x1 || oob_type == 0x4 {
                lemma_decode_emits_final_revolution(bytes.skip(4 + size), cur, acc);
            } else if oob_type == 0x2 {
                lemma_decode_emits_final_revolution(
                    bytes.skip(4 + size),
                    Seq::empty(),
                    acc.push(cur),
                );
            }
        } else {
            lemma_decode_emits_final_revolution(bytes.skip(1), cur.push(tag as u16), acc);
        }
    }
}

/// The two preservation laws, read at a whole stream's entry point: a
/// successful decode carries every interval the grammar emits, in order, and
/// exactly one revolution per boundary marker consumed plus the final one.
pub proof fn lemma_decode_stream_preserves_stream(bytes: Seq<u8>)
    requires
        spec_decode_stream(bytes) is Ok,
    ensures
        flat(spec_decode_stream(bytes)->Ok_0) == spec_intervals(bytes),
        spec_decode_stream(bytes)->Ok_0.len() == 1 + spec_index_count(bytes),
{
    lemma_decode_preserves_intervals(bytes, Seq::empty(), Seq::empty());
    lemma_decode_emits_final_revolution(bytes, Seq::empty(), Seq::empty());
    assert(flat(Seq::<Seq<u16>>::empty()) + Seq::<u16>::empty() + spec_intervals(bytes)
        =~= spec_intervals(bytes));
}

/// An out-of-band record with an invalid type fails decoding on the spot with
/// `InvalidOob`: no byte of the record's payload, nor anything after it, is
/// consumed.
pub proof fn lemma_invalid_oob_record_fails(bytes: Seq<u8>, cur: Seq<u16>, acc: Seq<Seq<u16>>)
    requires
        bytes.len() >= 4,
        bytes[0] == 0x0d,
        bytes[1] != 0x1 && bytes[1] != 0x2 && bytes[1] != 0x3 && bytes[1] != 0x4,
    ensures
        spec_decode(bytes, cur, acc) == Err::<Seq<Seq<u16>>, DecodeError>(DecodeError::InvalidOob),
{
}

/// The mathematical contents of a list of revolutions.
pub open spec fn revs_view(revs: Seq<Vec<u16>>) -> Seq<Seq<u16>> {
    Seq::new(revs.len(), |i: int| revs[i]@)
}

proof fn lemma_revs_view_push(revs: Seq<Vec<u16>>, v: Vec<u16>)
    ensures
        revs_view(revs.push(v)) == revs_view(revs).push(v@),
{
    assert(revs_view(revs.push(v)) =~= revs_view(revs).push(v@));
}

/// Decode a whole byte stream into its revolutions, exactly as the spec-level
/// decoder reads it: the result is `spec_decode_stream` of the input, both on
/// success and on failure.
pub fn decode_stream(bytes: &Vec<u8>) -> (r: Result<Vec<Vec<u16>>, DecodeError>)
    ensures
        (match r {
            Ok(revs) => spec_decode_stream(bytes@) == Ok::<Seq<Seq<u16>>, DecodeError>(
                revs_view(revs@),
            ),
            Err(e) => spec_decode_stream(bytes@) == Err::<Seq<Seq<u16>>, DecodeError>(e),
        }),
{
    let n = bytes.len();
    let mut i: usize = 0;
    let mut cur: Vec<u16> = Vec::new();
    let mut acc: Vec<Vec<u16>> = Vec::new();

    proof {
        assert(bytes@.skip(0) =~= bytes@);
        assert(revs_view(acc@) =~= Seq::<Seq<u16>>::empty());
    }
    while i < n
        invariant
            i <= n,
            n == bytes@.len(),
            spec_decode_stream(bytes@) == spec_decode(
                bytes@.skip(i as int),
                cur@,
                revs_view(acc@),
            ),
        decreases n - i,
    {
        let ghost rest = bytes@.skip(i as int);
        let tag = bytes[i];
        proof {
            assert(rest[0] == tag);
        }
        if tag <= 0x07 {
            if n - i < 2 {
                return Err(DecodeError::EofFlux2);
            }
            let low = bytes[i + 1];
            let iv: u16 = (tag as u16) * 256 + (low as u16);
            proof {
                assert(rest[1] == low);
                assert(rest.skip(2) =~= bytes@.skip(i as int + 2));
            }
            cur.push(iv);
            i = i + 2;
        } else if tag == 0x08 {
            proof {
                assert(rest.skip(1) =~= bytes@.skip(i as int + 1));
            }
            i = i + 1;
        } else if tag == 0x09 {
            if n - i < 2 {
                return Err(DecodeError::EofNop2);
            }
            proof {
                assert(rest.skip(2) =~= bytes@.skip(i as int + 2));
            }
            i = i + 2;
        } else if tag == 0x0a {
            if n - i < 3 {
                return Err(DecodeError::EofNop3);
            }
            proof {
                assert(rest.skip(3) =~= bytes@.skip(i as int + 3));
            }
            i = i + 3;
        } else if tag == 0x0b {
            return Err(DecodeError::Ovl16Unsupported);
        } else if tag == 0x0c {
            if n - i < 3 {
                return Err(DecodeError::EofFlux3);
            }
            let high = bytes[i + 1];
            let low = bytes[i + 2];
            let iv: u16 = (high as u16) * 256 + (low as u16);
            proof {
                assert(rest[1] == high);
                assert(rest[2] == low);
                assert(rest.skip(3) =~= bytes@.skip(i as int + 3));
            }
            cur.push(iv);
            i = i + 3;
        } else if tag == 0x0d {
            if n - i < 4 {
                return Err(DecodeError::EofOob);
            }
            let oob_type = bytes[i + 1];
            let size_lo = bytes[i + 2];
            let size_hi = bytes[i + 3];
            let size: usize = (size_hi as usize) * 256 + (size_lo as usize);
            proof {
                assert(rest[1] == oob_type);
                assert(rest[2] == size_lo);
                assert(rest[3] == size_hi);
            }
            if oob_type == 0x1 || oob_type == 0x4 || oob_type == 0x2 {
                if n - i - 4 < size {
                    return Err(DecodeError::EofOob);
                }
                proof {
                    assert(rest.skip(4 + size as int) =~= bytes@.skip(i as int + 4 + size as int));
                }
                if oob_type == 0x2 {
                    proof {
                        lemma_revs_view_push(acc@, cur);
                    }
                    let sealed = cur;
                    cur = Vec::new();
                    acc.push(sealed);
                }
                i = i + 4 + size;
            } else if oob_type == 0x3 {
                proof {
                    lemma_revs_view_push(acc@, cur);
                }
                acc.push(cur);
                return Ok(acc);
            } else {
                return Err(DecodeError::InvalidOob);
            }
        } else {
            proof {
                assert(rest.skip(1) =~= bytes@.skip(i as int + 1));
            }
            cur.push(tag as u16);
            i = i + 1;
        }
    }
    proof {
        assert(bytes@.skip(i as int).len() == 0);
        lemma_revs_view_push(acc@, cur);
    }
    acc.push(cur);
    Ok(acc)
}

} // verus!
