use vstd::prelude::*;

use super::common::{amplitude, amplitude_bits, bytes_bits, lemma_stream_determines, category, lemma_bytes_bits_append,
    lemma_large_category, abs};
pub use super::common::Bits;
use super::huffman::{ac_codeword, ac_table, codeword, dc_codeword, dc_table, has_code};
use super::jpeg::Mode;

verus! {

/// Why a block cannot be encoded: a DC difference or an AC (run, category) pair that the
/// plane's Huffman table has no codeword for.
#[derive(Debug, PartialEq, Eq, Clone, Copy, Structural)]
pub enum EncodeError {
    UnsupportedCoefficient,
}

/// Both parts present: their concatenation; else nothing.
pub open spec fn opt_cat(a: Option<Seq<bool>>, b: Option<Seq<bool>>) -> Option<Seq<bool>> {
    match (a, b) {
        (Some(x), Some(y)) => Some(x + y),
        _ => None,
    }
}

/// The bits of a DC difference: the codeword of its category, then its amplitude.
pub open spec fn dc_bits(mode: Mode, delta: int) -> Option<Seq<bool>> {
    let c = category(delta);
    if c <= 15 && has_code(dc_table(mode).0, dc_table(mode).1, c as u8) {
        Some(codeword(dc_table(mode).0, dc_table(mode).1, c as u8) + amplitude(delta))
    } else {
        None
    }
}

/// The AC symbol byte: run length in the high nibble, category in the low one.
pub open spec fn ac_symbol(run: int, v: int) -> u8 {
    (run * 16 + category(v)) as u8
}

/// The bits of the AC pair (`run` zeros, then `v`): the codeword of its symbol, then the
/// amplitude of `v`.
pub open spec fn ac_bits(mode: Mode, run: int, v: int) -> Option<Seq<bool>> {
    if 0 <= run <= 15 && category(v) <= 15 && has_code(
        ac_table(mode).0,
        ac_table(mode).1,
        ac_symbol(run, v),
    ) {
        Some(codeword(ac_table(mode).0, ac_table(mode).1, ac_symbol(run, v)) + amplitude(v))
    } else {
        None
    }
}

/// The run-length symbols (run, value) of the AC coefficients `ac`, with `run` zeros already
/// pending: each nonzero value closes its run, preceded by one (15, 0) escape for each full
/// sixteen zeros; zeros left at the end give one (0, 0) end-of-block.
pub open spec fn run_symbols(ac: Seq<i32>, run: nat) -> Seq<(int, int)>
    decreases ac.len(),
{
    if ac.len() == 0 {
        if run > 0 {
            seq![(0int, 0int)]
        } else {
            Seq::empty()
        }
    } else if ac[0] == 0 {
        run_symbols(ac.drop_first(), run + 1)
    } else {
        escapes(run / 16) + seq![((run % 16) as int, ac[0] as int)] + run_symbols(
            ac.drop_first(),
            0,
        )
    }
}

/// `n` zero-run escapes.
pub open spec fn escapes(n: nat) -> Seq<(int, int)> {
    Seq::new(n, |i: int| (15int, 0int))
}

/// The bits of a sequence of AC symbols, or `None` if one of them has no code.
pub open spec fn symbols_bits(mode: Mode, syms: Seq<(int, int)>) -> Option<Seq<bool>>
    decreases syms.len(),
{
    if syms.len() == 0 {
        Some(Seq::empty())
    } else {
        opt_cat(ac_bits(mode, syms[0].0, syms[0].1), symbols_bits(mode, syms.drop_first()))
    }
}

/// The bits of one block of quantized coefficients in zig-zag order (index 0 the DC term),
/// given the DC value of the plane's previous block.
pub open spec fn block_bits(mode: Mode, seq: Seq<i32>, prev_dc: int) -> Option<Seq<bool>> {
    if seq.len() == 0 {
        Some(Seq::empty())
    } else {
        opt_cat(
            dc_bits(mode, seq[0] - prev_dc),
            symbols_bits(mode, run_symbols(seq.drop_first(), 0)),
        )
    }
}

pub proof fn lemma_opt_cat_assoc(a: Option<Seq<bool>>, b: Option<Seq<bool>>, c: Option<Seq<bool>>)
    ensures
        opt_cat(opt_cat(a, b), c) == opt_cat(a, opt_cat(b, c)),
{
    if a is Some && b is Some && c is Some {
        assert(a.unwrap() + b.unwrap() + c.unwrap() =~= a.unwrap() + (b.unwrap() + c.unwrap()));
    }
}

pub proof fn lemma_symbols_bits_append(mode: Mode, a: Seq<(int, int)>, b: Seq<(int, int)>)
    ensures
        symbols_bits(mode, a + b) == opt_cat(symbols_bits(mode, a), symbols_bits(mode, b)),
    decreases a.len(),
{
    if a.len() == 0 {
        assert(a + b =~= b);
        if symbols_bits(mode, b) is Some {
            assert(Seq::<bool>::empty() + symbols_bits(mode, b).unwrap() =~= symbols_bits(
                mode,
                b,
            ).unwrap());
        }
    } else {
        assert((a + b).drop_first() =~= a.drop_first() + b);
        assert((a + b)[0] == a[0]);
        lemma_symbols_bits_append(mode, a.drop_first(), b);
        lemma_opt_cat_assoc(
            ac_bits(mode, a[0].0, a[0].1),
            symbols_bits(mode, a.drop_first()),
            symbols_bits(mode, b),
        );
    }
}

proof fn lemma_symbols_bits_single(mode: Mode, s: (int, int))
    ensures
        symbols_bits(mode, seq![s]) == opt_cat(ac_bits(mode, s.0, s.1), Some(Seq::empty())),
{
    let e = seq![s].drop_first();
    assert(e =~= Seq::<(int, int)>::empty());
    assert(e.len() == 0);
    assert(symbols_bits(mode, e) == Some(Seq::<bool>::empty()));
    assert(seq![s][0] == s);
}

proof fn lemma_opt_cat_empty(a: Option<Seq<bool>>)
    ensures
        opt_cat(a, Some(Seq::empty())) == a,
        opt_cat(Some(Seq::empty()), a) == a,
{
    if a is Some {
        assert(a.unwrap() + Seq::<bool>::empty() =~= a.unwrap());
        assert(Seq::<bool>::empty() + a.unwrap() =~= a.unwrap());
    }
}

/// The codeword and the amplitude field of a DC difference.
fn dc_parts(dc: i32, mode: Mode) -> (r: Result<(Bits, Bits), EncodeError>)
    ensures
        r is Ok == dc_bits(mode, dc as int) is Some,
        r matches Ok((c, a)) ==> c.wf() && a.wf() && c.length <= 16 && a.length <= 15 && dc_bits(
            mode,
            dc as int,
        ) == Some(c@ + a@),
{
    let amp = super::common::get_abs_bit_conut(dc);
    if amp > 15 {
        return Err(EncodeError::UnsupportedCoefficient);
    }
    match dc_codeword(mode, amp as u8) {
        Some(c) => Ok((c, amplitude_bits(dc))),
        None => Err(EncodeError::UnsupportedCoefficient),
    }
}

/// The codeword and the amplitude field of the AC pair (`run_length` zeros, then `ac`).
fn ac_parts(run_length: u8, ac: i32, mode: Mode) -> (r: Result<(Bits, Bits), EncodeError>)
    requires
        run_length <= 15,
    ensures
        r is Ok == ac_bits(mode, run_length as int, ac as int) is Some,
        r matches Ok((c, a)) ==> c.wf() && a.wf() && c.length <= 16 && a.length == category(
            ac as int,
        ) && ac_bits(
            mode,
            run_length as int,
            ac as int,
        ) == Some(c@ + a@),
{
    let size = super::common::get_abs_bit_conut(ac);
    if size > 15 {
        return Err(EncodeError::UnsupportedCoefficient);
    }
    let symbol: u8 = run_length * 16 + size as u8;
    assert(symbol == ac_symbol(run_length as int, ac as int));
    match ac_codeword(mode, symbol) {
        Some(c) => Ok((c, amplitude_bits(ac))),
        None => Err(EncodeError::UnsupportedCoefficient),
    }
}

/// The codeword of the DC difference `dc` followed by its amplitude field.
pub fn encode_dc(dc: i32, mode: Mode) -> (r: Result<Bits, EncodeError>)
    ensures
        r is Ok == dc_bits(mode, dc as int) is Some,
        r matches Ok(b) ==> b.wf() && Some(b@) == dc_bits(mode, dc as int),
{
    let (c, a) = dc_parts(dc, mode)?;
    Ok(c.concat(a))
}

/// The codeword of the AC pair (`run_length` zeros, then `ac`) followed by the amplitude
/// field of `ac`.
pub fn encode_ac(run_length: u8, ac: i32, mode: Mode) -> (r: Result<Bits, EncodeError>)
    requires
        run_length <= 15,
    ensures
        r is Ok == ac_bits(mode, run_length as int, ac as int) is Some,
        r matches Ok(b) ==> b.wf() && Some(b@) == ac_bits(mode, run_length as int, ac as int),
{
    let (c, a) = ac_parts(run_length, ac, mode)?;
    Ok(c.concat(a))
}

/// Appends `b` to the accumulator and moves the complete bytes to `out`.
fn emit(bits: &mut Bits, b: Bits, out: &mut Vec<u8>)
    requires
        old(bits).wf(),
        old(bits).length < 8,
        b.wf(),
        b.length <= 24,
    ensures
        final(bits).wf(),
        final(bits).length < 8,
        bytes_bits(final(out)@) + final(bits)@ == bytes_bits(old(out)@) + old(bits)@ + b@,
{
    bits.append(b);
    let mut bytes = bits.dump();
    let ghost before = out@;
    let ghost new_bytes = bytes@;
    out.append(&mut bytes);
    proof {
        lemma_bytes_bits_append(before, new_bytes);
        assert(bytes_bits(out@) + bits@ =~= bytes_bits(before) + (bytes_bits(new_bytes) + bits@));
        assert(bytes_bits(before) + old(bits)@ + b@ =~= bytes_bits(before) + (old(bits)@ + b@));
    }
}

proof fn lemma_run_symbols_step(ac: Seq<i32>, i: int, run: nat)
    requires
        0 <= i < ac.len(),
    ensures
        ac[i] == 0 ==> run_symbols(ac.subrange(i, ac.len() as int), run) == run_symbols(
            ac.subrange(i + 1, ac.len() as int),
            run + 1,
        ),
        ac[i] != 0 ==> run_symbols(ac.subrange(i, ac.len() as int), run) == escapes(run / 16)
            + seq![((run % 16) as int, ac[i] as int)] + run_symbols(
            ac.subrange(i + 1, ac.len() as int),
            0,
        ),
{
    let s = ac.subrange(i, ac.len() as int);
    assert(s.drop_first() =~= ac.subrange(i + 1, ac.len() as int));
    assert(s[0] == ac[i]);
}

proof fn lemma_escape_step(mode: Mode, run: nat, rest: Seq<(int, int)>)
    requires
        run >= 16,
    ensures
        symbols_bits(mode, escapes(run / 16) + rest) == opt_cat(
            ac_bits(mode, 15, 0),
            symbols_bits(mode, escapes(((run - 16) as nat) / 16) + rest),
        ),
{
    let s = escapes(run / 16) + rest;
    assert(s.drop_first() =~= escapes(((run - 16) as nat) / 16) + rest);
    assert(s[0] == (15int, 0int));
}

/// The bits of the escapes and the pair that a nonzero value closing a run of `run` zeros
/// becomes.
pub open spec fn pair_bits(mode: Mode, run: nat, x: int) -> Option<Seq<bool>> {
    symbols_bits(mode, escapes(run / 16) + seq![((run % 16) as int, x)])
}

/// Emits the escapes and the pair for the nonzero value `x` after `run` zeros.
fn emit_pair(bits: &mut Bits, out: &mut Vec<u8>, run: usize, x: i32, mode: Mode) -> (r: Result<
    (),
    EncodeError,
>)
    requires
        old(bits).wf(),
        old(bits).length < 8,
    ensures
        final(bits).wf(),
        final(bits).length < 8,
        r is Ok == pair_bits(mode, run as nat, x as int) is Some,
        r is Ok ==> bytes_bits(final(out)@) + final(bits)@ == bytes_bits(old(out)@) + old(bits)@
            + pair_bits(mode, run as nat, x as int).unwrap(),
{
    let ghost start = bytes_bits(out@) + bits@;
    let ghost last = seq![((run as nat % 16) as int, x as int)];
    let ghost mut done: Seq<bool> = Seq::empty();
    let mut left = run;
    proof {
        assert(start + done =~= start);
        lemma_opt_cat_empty(pair_bits(mode, left as nat, x as int));
    }
    let ghost total = pair_bits(mode, run as nat, x as int);
    while left > 15
        invariant
            bits.wf(),
            bits.length < 8,
            bytes_bits(out@) + bits@ == start + done,
            last == seq![((left as nat % 16) as int, x as int)],
            total == pair_bits(mode, run as nat, x as int),
            total == opt_cat(Some(done), symbols_bits(mode, escapes(left as nat / 16) + last)),
        decreases left,
    {
        proof {
            lemma_escape_step(mode, left as nat, last);
            lemma_opt_cat_assoc(
                Some(done),
                ac_bits(mode, 15, 0),
                symbols_bits(mode, escapes(((left - 16) as nat) / 16) + last),
            );
        }
        let (ec, ea) = ac_parts(15, 0, mode)?;
        emit(bits, ec, out);
        proof {
            assert(category(0) == 0);
            assert(ea@ =~= Seq::<bool>::empty());
            assert(ec@ + ea@ =~= ec@);
            done = done + ec@;
            assert(bytes_bits(out@) + bits@ =~= start + done);
        }
        left = left - 16;
    }
    proof {
        assert(escapes(0) + last =~= last);
        lemma_symbols_bits_single(mode, ((left as nat % 16) as int, x as int));
        lemma_opt_cat_empty(ac_bits(mode, left as int, x as int));
        lemma_opt_cat_assoc(Some(done), ac_bits(mode, left as int, x as int), Some(Seq::empty()));
    }
    let (c, a) = ac_parts(left as u8, x, mode)?;
    emit(bits, c, out);
    emit(bits, a, out);
    proof {
        assert(bytes_bits(out@) + bits@ =~= start + (done + (c@ + a@)));
        assert(start + (done + (c@ + a@)) =~= bytes_bits(old(out)@) + old(bits)@ + (done + (c@
            + a@)));
    }
    Ok(())
}

proof fn lemma_block_first(mode: Mode, seq: Seq<i32>, prev_dc: int)
    requires
        seq.len() > 0,
    ensures
        block_bits(mode, seq, prev_dc) == opt_cat(
            dc_bits(mode, seq[0] - prev_dc),
            symbols_bits(mode, run_symbols(seq.subrange(1, seq.len() as int), 0)),
        ),
{
    assert(seq.drop_first() =~= seq.subrange(1, seq.len() as int));
}

proof fn lemma_nonzero_step(mode: Mode, seq: Seq<i32>, i: int, run: nat, done: Seq<bool>)
    requires
        0 <= i < seq.len(),
        seq[i] != 0,
    ensures
        opt_cat(Some(done), symbols_bits(mode, run_symbols(seq.subrange(i, seq.len() as int), run)))
            == opt_cat(
            opt_cat(Some(done), pair_bits(mode, run, seq[i] as int)),
            symbols_bits(mode, run_symbols(seq.subrange(i + 1, seq.len() as int), 0)),
        ),
{
    lemma_run_symbols_step(seq, i, run);
    let p = escapes(run / 16) + seq![((run % 16) as int, seq[i] as int)];
    let rest = run_symbols(seq.subrange(i + 1, seq.len() as int), 0);
    lemma_symbols_bits_append(mode, p, rest);
    lemma_opt_cat_assoc(Some(done), pair_bits(mode, run, seq[i] as int), symbols_bits(mode, rest));
}

/// Encodes one block of quantized coefficients in zig-zag order (index 0 the DC term, the
/// difference taken from `prev_dc`) into the running accumulator `bits`, and returns the
/// bytes completed on the way.
#[verifier::rlimit(50)]
pub fn encode(sequence: &[i32], bits: &mut Bits, prev_dc: i32, mode: Mode) -> (r: Result<
    Vec<u8>,
    EncodeError,
>)
    requires
        old(bits).wf(),
        old(bits).length < 8,
    ensures
        final(bits).wf(),
        final(bits).length < 8,
        r is Ok == block_bits(mode, sequence@, prev_dc as int) is Some,
        r matches Ok(bytes) ==> bytes_bits(bytes@) + final(bits)@ == old(bits)@ + block_bits(
            mode,
            sequence@,
            prev_dc as int,
        ).unwrap(),
{
    let mut result: Vec<u8> = Vec::new();
    let n = sequence.len();
    let ghost seq = sequence@;
    if n == 0 {
        proof {
            assert(bytes_bits(result@) + bits@ =~= old(bits)@ + Seq::<bool>::empty());
        }
        return Ok(result);
    }
    proof {
        lemma_block_first(mode, seq, prev_dc as int);
    }
    let delta: i64 = sequence[0] as i64 - prev_dc as i64;
    if delta < i32::MIN as i64 || delta > i32::MAX as i64 {
        proof {
            lemma_large_category(delta as int);
        }
        return Err(EncodeError::UnsupportedCoefficient);
    }
    let (c, a) = dc_parts(delta as i32, mode)?;
    emit(bits, c, &mut result);
    emit(bits, a, &mut result);
    let ghost mut done: Seq<bool> = c@ + a@;
    proof {
        assert(bytes_bits(result@) + bits@ =~= old(bits)@ + done);
    }
    let mut run: usize = 0;
    let mut i: usize = 1;
    while i < n
        invariant
            1 <= i <= n,
            n == seq.len(),
            seq == sequence@,
            run <= i,
            bits.wf(),
            bits.length < 8,
            bytes_bits(result@) + bits@ == old(bits)@ + done,
            block_bits(mode, seq, prev_dc as int) == opt_cat(
                Some(done),
                symbols_bits(mode, run_symbols(seq.subrange(i as int, n as int), run as nat)),
            ),
        decreases n - i,
    {
        let x = sequence[i];
        if x == 0 {
            proof {
                lemma_run_symbols_step(seq, i as int, run as nat);
            }
            run = run + 1;
        } else {
            proof {
                lemma_nonzero_step(mode, seq, i as int, run as nat, done);
            }
            let ghost before = bytes_bits(result@) + bits@;
            match emit_pair(bits, &mut result, run, x, mode) {
                Ok(()) => {},
                Err(e) => {
                    return Err(e);
                },
            }
            proof {
                let p = pair_bits(mode, run as nat, x as int).unwrap();
                assert(bytes_bits(result@) + bits@ =~= old(bits)@ + (done + p));
                done = done + p;
            }
            run = 0;
        }
        i = i + 1;
    }
    proof {
        assert(seq.subrange(n as int, n as int) =~= Seq::<i32>::empty());
    }
    if run != 0 {
        proof {
            lemma_symbols_bits_single(mode, (0int, 0int));
            lemma_opt_cat_empty(ac_bits(mode, 0, 0));
            assert(category(0) == 0);
        }
        let (c, a) = ac_parts(0, 0, mode)?;
        emit(bits, c, &mut result);
        proof {
            assert(a@ =~= Seq::<bool>::empty());
            assert(c@ + a@ =~= c@);
            assert(bytes_bits(result@) + bits@ =~= old(bits)@ + (done + c@));
            done = done + c@;
        }
    } else {
        proof {
            lemma_opt_cat_empty(Some(done));
        }
    }
    Ok(result)
}

proof fn lemma_zero_prefix(ac: Seq<i32>, k: int, run: nat)
    requires
        0 <= k <= ac.len(),
        forall|j: int| 0 <= j < k ==> ac[j] == 0,
    ensures
        run_symbols(ac, run) == run_symbols(ac.subrange(k, ac.len() as int), run + k as nat),
    decreases k,
{
    if k == 0 {
        assert(ac.subrange(0, ac.len() as int) =~= ac);
    } else {
        let rest = ac.drop_first();
        assert forall|j: int| 0 <= j < k - 1 implies rest[j] == 0 by {
            assert(rest[j] == ac[j + 1]);
        }
        lemma_zero_prefix(rest, k - 1, run + 1);
        assert(rest.subrange(k - 1, rest.len() as int) =~= ac.subrange(k, ac.len() as int));
    }
}

/// A nonzero AC value after exactly `r` zeros becomes `r / 16` escapes (15, 0) followed by
/// the pair (`r % 16`, value); what comes after starts a new run.
pub proof fn lemma_zero_run(ac: Seq<i32>, r: nat)
    requires
        r < ac.len(),
        forall|j: int| 0 <= j < r ==> ac[j] == 0,
        ac[r as int] != 0,
    ensures
        run_symbols(ac, 0) == escapes(r / 16) + seq![((r % 16) as int, ac[r as int] as int)]
            + run_symbols(ac.subrange(r + 1int, ac.len() as int), 0),
{
    lemma_zero_prefix(ac, r as int, 0);
    let tail = ac.subrange(r as int, ac.len() as int);
    assert(tail[0] == ac[r as int]);
    assert(tail.drop_first() =~= ac.subrange(r + 1int, ac.len() as int));
}

/// A run of exactly sixteen zero AC coefficients closed by a nonzero value becomes one
/// (15, 0) escape followed by the pair (0, value): never two escapes, and never a run
/// field of sixteen.
pub proof fn lemma_sixteen_zero_run(ac: Seq<i32>)
    requires
        ac.len() >= 17,
        forall|j: int| 0 <= j < 16 ==> ac[j] == 0,
        ac[16] != 0,
    ensures
        run_symbols(ac, 0) == seq![(15int, 0int), (0int, ac[16] as int)] + run_symbols(
            ac.subrange(17, ac.len() as int),
            0,
        ),
{
    lemma_zero_run(ac, 16);
    assert(escapes(1) + seq![(0int, ac[16] as int)] =~= seq![(15int, 0int), (0int, ac[16] as int)]);
}

/// Every run-length symbol has a run field from 0 to 15.
pub proof fn lemma_run_fields(ac: Seq<i32>, run: nat)
    ensures
        forall|i: int|
            0 <= i < run_symbols(ac, run).len() ==> 0 <= #[trigger] run_symbols(ac, run)[i].0 <= 15,
    decreases ac.len(),
{
    if ac.len() == 0 {
        if run > 0 {
            assert(run_symbols(ac, run) == seq![(0int, 0int)]);
            assert(seq![(0int, 0int)][0].0 == 0);
        } else {
            assert(run_symbols(ac, run).len() == 0);
        }
    } else {
        if ac[0] == 0 {
            lemma_run_fields(ac.drop_first(), run + 1);
            assert(run_symbols(ac, run) == run_symbols(ac.drop_first(), run + 1));
        } else {
            lemma_run_fields(ac.drop_first(), 0);
            let head = escapes(run / 16) + seq![((run % 16) as int, ac[0] as int)];
            let rest = run_symbols(ac.drop_first(), 0);
            assert(run_symbols(ac, run) == head + rest);
            assert forall|i: int| 0 <= i < (head + rest).len() implies 0 <= #[trigger] (head
                + rest)[i].0 <= 15 by {
                if i >= head.len() {
                    assert((head + rest)[i] == rest[i - head.len()]);
                } else if i < escapes(run / 16).len() {
                    assert(head[i] == escapes(run / 16)[i]);
                } else {
                    assert(head[i] == ((run % 16) as int, ac[0] as int));
                }
            }
        }
    }
}

/// Encoding a block is deterministic: two results that meet `encode`'s postcondition for the
/// same block, previous DC, plane and starting accumulator are the same bytes and leave the
/// same accumulator, and a stream of eight bits or more yields at least one byte.
pub proof fn lemma_encode_deterministic(
    mode: Mode,
    seq: Seq<i32>,
    prev_dc: int,
    start: Bits,
    b1: Seq<u8>,
    f1: Bits,
    b2: Seq<u8>,
    f2: Bits,
)
    requires
        block_bits(mode, seq, prev_dc) is Some,
        f1.wf() && f1.length < 8,
        f2.wf() && f2.length < 8,
        bytes_bits(b1) + f1@ == start@ + block_bits(mode, seq, prev_dc).unwrap(),
        bytes_bits(b2) + f2@ == start@ + block_bits(mode, seq, prev_dc).unwrap(),
    ensures
        b1 == b2,
        f1 == f2,
        start@.len() + block_bits(mode, seq, prev_dc).unwrap().len() >= 8 ==> b1.len() >= 1,
{
    lemma_stream_determines(b1, f1, b2, f2);
}

} // verus!
