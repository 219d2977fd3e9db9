//! Run-length text encoding of byte buffers.
//!
//! A buffer is written as its maximal runs of equal bytes, each run as
//! `"<byte>_<count>"` in decimal, the runs separated by `'-'`. For example
//! `[1, 1, 1, 0]` becomes `"1_3-0_1"`.
use vstd::prelude::*;
use vstd::string::*;

verus! {

// ---------------------------------------------------------------------------
// Decimal numbers
// ---------------------------------------------------------------------------

/// The character of the decimal digit `d`.
pub open spec fn digit_char(d: nat) -> char {
    (48 + d) as char
}

/// Decimal representation of `n`, without leading zeros.
pub open spec fn dec(n: nat) -> Seq<char>
    decreases n,
{
    if n < 10 {
        seq![digit_char(n)]
    } else {
        dec(n / 10).push(digit_char(n % 10))
    }
}

/// Whether `c` is one of `'0'..='9'`.
pub open spec fn is_digit(c: char) -> bool {
    '0' <= c && c <= '9'
}

/// Whether every character of `s` is a decimal digit.
pub open spec fn all_digits(s: Seq<char>) -> bool {
    forall|i: int| 0 <= i < s.len() ==> is_digit(#[trigger] s[i])
}

/// The number that the digits `s` stand for (leading zeros allowed).
pub open spec fn digits_value(s: Seq<char>) -> nat
    decreases s.len(),
{
    if s.len() == 0 {
        0
    } else {
        digits_value(s.drop_last()) * 10 + ((s.last() as int - 48) as nat)
    }
}

/// What parsing `s` as a `usize` gives: an optional `'+'`, then one or more
/// decimal digits, whose value fits in a `usize`.
pub open spec fn parse_usize(s: Seq<char>) -> Option<nat> {
    let t = if s.len() > 0 && s[0] == '+' {
        s.drop_first()
    } else {
        s
    };
    if t.len() > 0 && all_digits(t) && digits_value(t) <= usize::MAX {
        Some(digits_value(t))
    } else {
        None
    }
}

// ---------------------------------------------------------------------------
// Splitting text
// ---------------------------------------------------------------------------

/// The pieces of `s` between the occurrences of `sep`, as `str::split`
/// returns them (an empty text gives one empty piece).
pub open spec fn split(s: Seq<char>, sep: char) -> Seq<Seq<char>>
    decreases s.len(),
{
    if s.len() == 0 {
        seq![Seq::<char>::empty()]
    } else {
        let r = split(s.drop_last(), sep);
        if s.last() == sep {
            r.push(Seq::<char>::empty())
        } else {
            r.update(r.len() - 1, r.last().push(s.last()))
        }
    }
}

// ---------------------------------------------------------------------------
// Runs
// ---------------------------------------------------------------------------

/// The maximal runs of equal bytes of `s`, as `(byte, length)` pairs.
pub open spec fn runs(s: Seq<u8>) -> Seq<(u8, nat)>
    decreases s.len(),
{
    if s.len() == 0 {
        Seq::empty()
    } else {
        let r = runs(s.drop_last());
        if r.len() > 0 && r.last().0 == s.last() {
            r.update(r.len() - 1, (s.last(), r.last().1 + 1))
        } else {
            r.push((s.last(), 1))
        }
    }
}

/// `count` copies of `v`.
pub open spec fn repeat(v: u8, count: nat) -> Seq<u8> {
    Seq::new(count, |i: int| v)
}

/// The bytes that a sequence of runs stands for.
pub open spec fn flatten(rs: Seq<(u8, nat)>) -> Seq<u8>
    decreases rs.len(),
{
    if rs.len() == 0 {
        Seq::empty()
    } else {
        flatten(rs.drop_last()) + repeat(rs.last().0, rs.last().1)
    }
}

/// Text of one run: `"<byte>_<count>"`.
pub open spec fn run_text(r: (u8, nat)) -> Seq<char> {
    dec(r.0 as nat) + seq!['_'] + dec(r.1)
}

/// Text of runs, each followed by `'-'`.
pub open spec fn closed_text(rs: Seq<(u8, nat)>) -> Seq<char>
    decreases rs.len(),
{
    if rs.len() == 0 {
        Seq::empty()
    } else {
        closed_text(rs.drop_last()) + run_text(rs.last()) + seq!['-']
    }
}

/// Text of runs, separated by `'-'`.
pub open spec fn runs_text(rs: Seq<(u8, nat)>) -> Seq<char> {
    if rs.len() == 0 {
        Seq::empty()
    } else {
        closed_text(rs.drop_last()) + run_text(rs.last())
    }
}

/// The encoding of a byte buffer.
pub open spec fn encoded(bytes: Seq<u8>) -> Seq<char> {
    runs_text(runs(bytes))
}

// ---------------------------------------------------------------------------
// Decoding
// ---------------------------------------------------------------------------

/// Why a text could not be decoded.
#[derive(Debug, Clone, Copy, PartialEq, Eq, Structural)]
pub enum DecodeError {
    /// A block lacks its count.
    UnexpectedEnd,
    /// A byte or a count is not a number.
    InvalidInput,
}

/// The `(byte, count)` pair that one block of text stands for. A byte larger
/// than 255 is cut to its low eight bits.
pub open spec fn decode_block(b: Seq<char>) -> Result<(u8, nat), DecodeError> {
    let parts = split(b, '_');
    match parse_usize(parts[0]) {
        None => Err(DecodeError::InvalidInput),
        Some(v) => if parts.len() < 2 {
            Err(DecodeError::UnexpectedEnd)
        } else {
            match parse_usize(parts[1]) {
                None => Err(DecodeError::InvalidInput),
                Some(c) => Ok(((v % 256) as u8, c)),
            }
        },
    }
}

/// Decode blocks in order: the bytes written before the first bad block, and
/// the error of that block if there is one.
pub open spec fn decode_blocks(blocks: Seq<Seq<char>>) -> (Seq<u8>, Option<DecodeError>)
    decreases blocks.len(),
{
    if blocks.len() == 0 {
        (Seq::empty(), None)
    } else {
        let prev = decode_blocks(blocks.drop_last());
        if prev.1 is Some {
            prev
        } else {
            match decode_block(blocks.last()) {
                Err(e) => (prev.0, Some(e)),
                Ok(run) => (prev.0 + repeat(run.0, run.1), None),
            }
        }
    }
}

/// Decoding of a whole text: its blocks are separated by `'-'`.
pub open spec fn decoded(text: Seq<char>) -> (Seq<u8>, Option<DecodeError>) {
    decode_blocks(split(text, '-'))
}

/// A buffer of `len` bytes holding `prefix` followed by zeros.
pub open spec fn zero_padded(prefix: Seq<u8>, len: nat) -> Seq<u8> {
    Seq::new(len, |i: int| if i < prefix.len() { prefix[i] } else { 0u8 })
}

// ---------------------------------------------------------------------------
// Lemmas
// ---------------------------------------------------------------------------

proof fn lemma_split_nonempty(s: Seq<char>, sep: char)
    ensures
        split(s, sep).len() >= 1,
    decreases s.len(),
{
    if s.len() > 0 {
        lemma_split_nonempty(s.drop_last(), sep);
    }
}

/// Appending text without separators extends the last piece.
proof fn lemma_split_append_plain(a: Seq<char>, b: Seq<char>, sep: char)
    requires
        forall|i: int| 0 <= i < b.len() ==> b[i] != sep,
    ensures
        split(a + b, sep) == split(a, sep).update(
            split(a, sep).len() - 1,
            split(a, sep).last() + b,
        ),
    decreases b.len(),
{
    lemma_split_nonempty(a, sep);
    if b.len() == 0 {
        assert(a + b =~= a);
        assert(split(a, sep).last() + b =~= split(a, sep).last());
        assert(split(a, sep).update(split(a, sep).len() - 1, split(a, sep).last())
            =~= split(a, sep));
    } else {
        let b0 = b.drop_last();
        lemma_split_append_plain(a, b0, sep);
        assert((a + b).drop_last() =~= a + b0);
        assert((a + b).last() == b.last());
        lemma_split_nonempty(a + b0, sep);
        let r = split(a + b0, sep);
        assert(r.last() == split(a, sep).last() + b0);
        assert(r.last().push(b.last()) =~= split(a, sep).last() + b);
        assert(r.update(r.len() - 1, r.last().push(b.last())) =~= split(a, sep).update(
            split(a, sep).len() - 1,
            split(a, sep).last() + b,
        ));
    }
}

/// Appending a separator starts a new, empty piece.
proof fn lemma_split_append_sep(a: Seq<char>, sep: char)
    ensures
        split(a + seq![sep], sep) == split(a, sep).push(Seq::<char>::empty()),
{
    assert((a + seq![sep]).drop_last() =~= a);
}

pub proof fn lemma_digit_char(k: nat)
    requires
        k < 10,
    ensures
        digit_char(k) as int == 48 + k,
        is_digit(digit_char(k)),
{
    assert((48 + k) as char as int == 48 + k);
}

pub proof fn lemma_dec_digits(n: nat)
    ensures
        dec(n).len() >= 1,
        all_digits(dec(n)),
        digits_value(dec(n)) == n,
    decreases n,
{
    lemma_digit_char(n % 10);
    if n < 10 {
        assert(dec(n).drop_last() =~= Seq::<char>::empty());
        assert(digits_value(dec(n)) == digits_value(dec(n).drop_last()) * 10 + ((dec(n).last() as int
            - 48) as nat));
    } else {
        lemma_dec_digits(n / 10);
        let d = dec(n / 10);
        assert(dec(n).drop_last() =~= d);
        assert forall|i: int| 0 <= i < dec(n).len() implies is_digit(#[trigger] dec(n)[i]) by {
            if i < d.len() {
                assert(dec(n)[i] == d[i]);
            }
        }
        assert(dec(n).last() == digit_char(n % 10));
        assert(digits_value(dec(n)) == digits_value(d) * 10 + ((dec(n).last() as int - 48) as nat));
        assert((n / 10) * 10 + n % 10 == n);
    }
}

proof fn lemma_dec_parses(n: nat)
    requires
        n <= usize::MAX,
    ensures
        parse_usize(dec(n)) == Some(n),
        forall|i: int| 0 <= i < dec(n).len() ==> #[trigger] dec(n)[i] != '_' && dec(n)[i] != '-',
{
    lemma_dec_digits(n);
    assert(is_digit(dec(n)[0]));
    assert forall|i: int| 0 <= i < dec(n).len() implies #[trigger] dec(n)[i] != '_' && dec(n)[i]
        != '-' by {
        assert(is_digit(dec(n)[i]));
    }
}

proof fn lemma_run_text_no_sep(r: (u8, nat))
    requires
        r.1 <= usize::MAX,
    ensures
        forall|i: int| 0 <= i < run_text(r).len() ==> #[trigger] run_text(r)[i] != '-',
{
    lemma_dec_parses(r.0 as nat);
    lemma_dec_parses(r.1);
    let a = dec(r.0 as nat);
    let b = dec(r.1);
    assert forall|i: int| 0 <= i < run_text(r).len() implies #[trigger] run_text(r)[i] != '-' by {
        if i < a.len() {
            assert(run_text(r)[i] == a[i]);
        } else if i > a.len() {
            assert(run_text(r)[i] == b[i - a.len() - 1]);
        }
    }
}

proof fn lemma_decode_run_text(r: (u8, nat))
    requires
        r.1 <= usize::MAX,
    ensures
        decode_block(run_text(r)) == Ok::<(u8, nat), DecodeError>(r),
{
    let a = dec(r.0 as nat);
    let b = dec(r.1);
    lemma_dec_parses(r.0 as nat);
    lemma_dec_parses(r.1);
    lemma_split_append_plain(Seq::<char>::empty(), a, '_');
    assert(Seq::<char>::empty() + a =~= a);
    assert(split(Seq::<char>::empty(), '_') =~= seq![Seq::<char>::empty()]);
    assert(split(a, '_') =~= seq![a]);
    lemma_split_append_sep(a, '_');
    lemma_split_append_plain(a + seq!['_'], b, '_');
    assert(split(run_text(r), '_') =~= seq![a, b]);
    assert((r.0 as nat) % 256 == r.0 as nat);
}

proof fn lemma_split_closed(rs: Seq<(u8, nat)>)
    requires
        forall|i: int| 0 <= i < rs.len() ==> (#[trigger] rs[i]).1 <= usize::MAX,
    ensures
        split(closed_text(rs), '-') == rs.map_values(|r: (u8, nat)| run_text(r)).push(
            Seq::<char>::empty(),
        ),
    decreases rs.len(),
{
    if rs.len() == 0 {
        assert(split(closed_text(rs), '-') =~= seq![Seq::<char>::empty()]);
        assert(rs.map_values(|r: (u8, nat)| run_text(r)).push(Seq::<char>::empty()) =~= seq![
            Seq::<char>::empty(),
        ]);
    } else {
        let rs0 = rs.drop_last();
        lemma_split_closed(rs0);
        let t = run_text(rs.last());
        lemma_run_text_no_sep(rs.last());
        lemma_split_append_plain(closed_text(rs0), t, '-');
        lemma_split_append_sep(closed_text(rs0) + t, '-');
        assert(Seq::<char>::empty() + t =~= t);
        assert(rs.map_values(|r: (u8, nat)| run_text(r)) =~= rs0.map_values(
            |r: (u8, nat)| run_text(r),
        ).push(t));
    }
}

proof fn lemma_split_runs_text(rs: Seq<(u8, nat)>)
    requires
        rs.len() > 0,
        forall|i: int| 0 <= i < rs.len() ==> (#[trigger] rs[i]).1 <= usize::MAX,
    ensures
        split(runs_text(rs), '-') == rs.map_values(|r: (u8, nat)| run_text(r)),
{
    let rs0 = rs.drop_last();
    lemma_split_closed(rs0);
    let t = run_text(rs.last());
    lemma_run_text_no_sep(rs.last());
    lemma_split_append_plain(closed_text(rs0), t, '-');
    assert(Seq::<char>::empty() + t =~= t);
    assert(rs.map_values(|r: (u8, nat)| run_text(r)) =~= rs0.map_values(|r: (u8, nat)| run_text(r)).push(
        t,
    ));
}

proof fn lemma_decode_runs(rs: Seq<(u8, nat)>)
    requires
        forall|i: int| 0 <= i < rs.len() ==> (#[trigger] rs[i]).1 <= usize::MAX,
    ensures
        decode_blocks(rs.map_values(|r: (u8, nat)| run_text(r))) == (flatten(rs), None::<DecodeError>),
    decreases rs.len(),
{
    let m = rs.map_values(|r: (u8, nat)| run_text(r));
    if rs.len() > 0 {
        let rs0 = rs.drop_last();
        lemma_decode_runs(rs0);
        assert(m.drop_last() =~= rs0.map_values(|r: (u8, nat)| run_text(r)));
        lemma_decode_run_text(rs.last());
    }
}

proof fn lemma_runs_flatten(s: Seq<u8>)
    ensures
        flatten(runs(s)) == s,
        forall|i: int| 0 <= i < runs(s).len() ==> (#[trigger] runs(s)[i]).1 <= s.len(),
        s.len() > 0 ==> runs(s).len() > 0,
    decreases s.len(),
{
    if s.len() > 0 {
        let s0 = s.drop_last();
        lemma_runs_flatten(s0);
        let r = runs(s0);
        if r.len() > 0 && r.last().0 == s.last() {
            let r2 = r.update(r.len() - 1, (s.last(), r.last().1 + 1));
            assert(r2.drop_last() =~= r.drop_last());
            assert(flatten(r) == flatten(r.drop_last()) + repeat(r.last().0, r.last().1));
            assert(repeat(s.last(), r.last().1 + 1) =~= repeat(r.last().0, r.last().1).push(
                s.last(),
            ));
            assert(flatten(r2) == flatten(r2.drop_last()) + repeat(r2.last().0, r2.last().1));
            assert(s0.push(s.last()) =~= s);
            assert(flatten(r2) =~= s);
        } else {
            assert(r.push((s.last(), 1)).drop_last() =~= r);
            assert(repeat(s.last(), 1) =~= seq![s.last()]);
            assert(flatten(r.push((s.last(), 1))) =~= s);
        }
    }
}

/// Decoding the encoding of a non-empty buffer gives the buffer back.
pub proof fn law_decode_encoded(bytes: Seq<u8>)
    requires
        bytes.len() > 0,
        bytes.len() <= usize::MAX,
    ensures
        decoded(encoded(bytes)) == (bytes, None::<DecodeError>),
{
    lemma_runs_flatten(bytes);
    let rs = runs(bytes);
    lemma_split_runs_text(rs);
    lemma_decode_runs(rs);
}

/// The bytes written before the first bad block only grow as blocks are
/// read: those of the first `k` blocks start the bytes of all of them.
proof fn lemma_decode_prefix(blocks: Seq<Seq<char>>, k: int)
    requires
        0 <= k <= blocks.len(),
        decode_blocks(blocks.take(k)).1 is None,
    ensures
        decode_blocks(blocks.take(k)).0.len() <= decode_blocks(blocks).0.len(),
        decode_blocks(blocks).0.take(decode_blocks(blocks.take(k)).0.len() as int) == decode_blocks(
            blocks.take(k),
        ).0,
    decreases blocks.len(),
{
    if k == blocks.len() {
        assert(blocks.take(k) =~= blocks);
        assert(decode_blocks(blocks).0.take(decode_blocks(blocks).0.len() as int) =~= decode_blocks(
            blocks,
        ).0);
    } else {
        let b0 = blocks.drop_last();
        assert(b0.take(k) =~= blocks.take(k));
        lemma_decode_prefix(b0, k);
        let p = decode_blocks(b0).0;
        let q = decode_blocks(blocks).0;
        let n = decode_blocks(blocks.take(k)).0.len() as int;
        assert(q.len() >= p.len());
        assert(q.take(p.len() as int) =~= p);
        assert(q.take(n) =~= p.take(n));
    }
}

// ---------------------------------------------------------------------------
// Executable encoder
// ---------------------------------------------------------------------------

fn digit_str(d: usize) -> (s: &'static str)
    requires
        d < 10,
    ensures
        s@ == seq![digit_char(d as nat)],
{
    proof {
        reveal_strlit("0");
        reveal_strlit("1");
        reveal_strlit("2");
        reveal_strlit("3");
        reveal_strlit("4");
        reveal_strlit("5");
        reveal_strlit("6");
        reveal_strlit("7");
        reveal_strlit("8");
        reveal_strlit("9");
    }
    let s = match d {
        0 => "0",
        1 => "1",
        2 => "2",
        3 => "3",
        4 => "4",
        5 => "5",
        6 => "6",
        7 => "7",
        8 => "8",
        _ => "9",
    };
    assert(s@ =~= seq![digit_char(d as nat)]);
    s
}

/// Append the decimal representation of `n` to `out`.
pub fn push_decimal(out: &mut String, n: usize)
    ensures
        final(out)@ == old(out)@ + dec(n as nat),
    decreases n,
{
    if n >= 10 {
        push_decimal(out, n / 10);
    }
    out.append(digit_str(n % 10));
    proof {
        if n >= 10 {
            assert(old(out)@ + dec((n / 10) as nat) + seq![digit_char((n % 10) as nat)] =~= old(out)@
                + dec(n as nat));
        } else {
            assert(dec(n as nat) =~= seq![digit_char(n as nat)]);
        }
    }
}

fn push_run(out: &mut String, v: u8, count: usize)
    ensures
        final(out)@ == old(out)@ + run_text((v, count as nat)),
{
    let ghost start = out@;
    push_decimal(out, v as usize);
    proof {
        reveal_strlit("_");
    }
    out.append("_");
    push_decimal(out, count);
    assert(out@ =~= start + run_text((v, count as nat)));
}

/// Run-length encode a non-empty byte buffer.
pub fn encode(bytes: &[u8]) -> (s: String)
    requires
        bytes@.len() > 0,
    ensures
        s@ == encoded(bytes@),
{
    let mut res = String::new();
    let mut current: u8 = bytes[0];
    let mut count: usize = 1;
    let mut i: usize = 1;
    assert(runs(bytes@.take(1)) =~= seq![(bytes@[0], 1nat)]) by {
        assert(bytes@.take(1).drop_last() =~= Seq::<u8>::empty());
        assert(bytes@.take(1).last() == bytes@[0]);
        assert(runs(Seq::<u8>::empty()) =~= Seq::<(u8, nat)>::empty());
    }
    assert(closed_text(seq![(bytes@[0], 1nat)].drop_last()) =~= Seq::<char>::empty()) by {
        assert(seq![(bytes@[0], 1nat)].drop_last() =~= Seq::<(u8, nat)>::empty());
    }
    assert(res@ =~= Seq::<char>::empty());
    while i < bytes.len()
        invariant
            1 <= i <= bytes@.len(),
            1 <= count <= i,
            runs(bytes@.take(i as int)).len() > 0,
            runs(bytes@.take(i as int)).last() == (current, count as nat),
            res@ == closed_text(runs(bytes@.take(i as int)).drop_last()),
        decreases bytes@.len() - i,
    {
        let ghost r = runs(bytes@.take(i as int));
        let byte = bytes[i];
        assert(bytes@.take(i + 1).drop_last() =~= bytes@.take(i as int));
        if byte == current {
            count = count + 1;
            assert(r.update(r.len() - 1, (byte, (count - 1) as nat + 1)).drop_last() =~= r.drop_last());
        } else {
            push_run(&mut res, current, count);
            proof {
                reveal_strlit("-");
            }
            res.append("-");
            proof {
                let r2 = r.push((byte, 1nat));
                assert(r2.drop_last() =~= r);
                assert(r2.drop_last().drop_last() =~= r.drop_last());
                assert(r == r.drop_last().push(r.last()));
            }
            current = byte;
            count = 1;
        }
        i = i + 1;
    }
    push_run(&mut res, current, count);
    assert(bytes@.take(bytes@.len() as int) =~= bytes@);
    res
}

// ---------------------------------------------------------------------------
// Executable decoder
// ---------------------------------------------------------------------------

/// The characters of `s`.
pub fn chars_of(s: &str) -> (v: Vec<char>)
    ensures
        v@ == s@,
{
    let n = s.unicode_len();
    let mut v: Vec<char> = Vec::new();
    let mut i: usize = 0;
    while i < n
        invariant
            n == s@.len(),
            i <= n,
            v@ == s@.take(i as int),
        decreases n - i,
    {
        v.push(s.get_char(i));
        i = i + 1;
        assert(v@ =~= s@.take(i as int));
    }
    assert(s@.take(n as int) =~= s@);
    v
}

/// Bounds of the pieces of `s[lo..hi]` between the occurrences of `sep`.
fn split_ranges(s: &Vec<char>, lo: usize, hi: usize, sep: char) -> (r: Vec<(usize, usize)>)
    requires
        lo <= hi <= s@.len(),
    ensures
        r@.len() == split(s@.subrange(lo as int, hi as int), sep).len(),
        forall|k: int|
            0 <= k < r@.len() ==> lo <= (#[trigger] r@[k]).0 <= r@[k].1 <= hi && s@.subrange(
                r@[k].0 as int,
                r@[k].1 as int,
            ) == split(s@.subrange(lo as int, hi as int), sep)[k],
{
    let mut r: Vec<(usize, usize)> = Vec::new();
    let mut start: usize = lo;
    let mut i: usize = lo;
    assert(split(s@.subrange(lo as int, lo as int), sep) =~= seq![Seq::<char>::empty()]);
    while i < hi
        invariant
            lo <= start <= i <= hi <= s@.len(),
            r@.len() + 1 == split(s@.subrange(lo as int, i as int), sep).len(),
            forall|k: int|
                0 <= k < r@.len() ==> lo <= (#[trigger] r@[k]).0 <= r@[k].1 <= i && s@.subrange(
                    r@[k].0 as int,
                    r@[k].1 as int,
                ) == split(s@.subrange(lo as int, i as int), sep)[k],
            s@.subrange(start as int, i as int) == split(s@.subrange(lo as int, i as int), sep).last(),
        decreases hi - i,
    {
        let ghost prev = split(s@.subrange(lo as int, i as int), sep);
        assert(s@.subrange(lo as int, i + 1).drop_last() =~= s@.subrange(lo as int, i as int));
        if s[i] == sep {
            r.push((start, i));
            start = i + 1;
            assert(s@.subrange(start as int, i + 1) =~= Seq::<char>::empty());
        } else {
            assert(s@.subrange(start as int, i + 1) =~= s@.subrange(start as int, i as int).push(s@[i as int]));
        }
        i = i + 1;
    }
    r.push((start, hi));
    r
}

/// Parse `s[a..b]` as a `usize`.
fn parse_range(s: &Vec<char>, a: usize, b: usize) -> (r: Option<usize>)
    requires
        a <= b <= s@.len(),
    ensures
        r matches Some(v) ==> parse_usize(s@.subrange(a as int, b as int)) == Some(v as nat),
        r is None ==> parse_usize(s@.subrange(a as int, b as int)) is None,
{
    let ghost whole = s@.subrange(a as int, b as int);
    let mut i = a;
    if i < b && s[i] == '+' {
        i = i + 1;
    }
    let ghost t = s@.subrange(i as int, b as int);
    assert(t =~= (if whole.len() > 0 && whole[0] == '+' { whole.drop_first() } else { whole }));
    assert(parse_usize(whole) == (if t.len() > 0 && all_digits(t) && digits_value(t) <= usize::MAX {
        Some(digits_value(t))
    } else {
        None
    }));
    if i >= b {
        return None;
    }
    let start = i;
    let mut acc: usize = 0;
    while i < b
        invariant
            a <= start <= i <= b <= s@.len(),
            t == s@.subrange(start as int, b as int),
            whole == s@.subrange(a as int, b as int),
            t.len() > 0,
            parse_usize(whole) == (if t.len() > 0 && all_digits(t) && digits_value(t) <= usize::MAX {
                Some(digits_value(t))
            } else {
                None
            }),
            all_digits(s@.subrange(start as int, i as int)),
            acc == digits_value(s@.subrange(start as int, i as int)),
        decreases b - i,
    {
        let c = s[i];
        if !('0' <= c && c <= '9') {
            assert(t[i - start] == c);
            assert(!is_digit(t[i - start]));
            assert(!all_digits(t));
            assert(parse_usize(whole) is None);
            return None;
        }
        let d = (c as u32 - 48) as usize;
        assert(s@.subrange(start as int, i + 1).drop_last() =~= s@.subrange(start as int, i as int));
        if acc > (usize::MAX - d) / 10 {
            proof {
                lemma_digits_prefix_le(t, i + 1 - start);
                assert(t.take(i + 1 - start) =~= s@.subrange(start as int, i + 1));
                assert(acc * 10 + d > usize::MAX) by (nonlinear_arith)
                    requires
                        acc > (usize::MAX - d) / 10,
                        d <= 9,
                ;
            }
            return None;
        }
        proof {
            assert(acc * 10 + d <= usize::MAX) by (nonlinear_arith)
                requires
                    acc <= (usize::MAX - d) / 10,
                    d <= 9,
            ;
        }
        acc = acc * 10 + d;
        i = i + 1;
        assert forall|k: int| 0 <= k < i - start implies is_digit(#[trigger] s@.subrange(start as int, i as int)[k]) by {
            if k < i - 1 - start {
                assert(s@.subrange(start as int, i as int)[k] == s@.subrange(start as int, i - 1)[k]);
            }
        }
    }
    assert(s@.subrange(start as int, b as int) == t);
    Some(acc)
}

/// A digit string is worth at least as much as any of its prefixes.
pub proof fn lemma_digits_prefix_le(t: Seq<char>, k: int)
    requires
        0 <= k <= t.len(),
    ensures
        digits_value(t.take(k)) <= digits_value(t),
    decreases t.len(),
{
    if k < t.len() {
        assert(t.drop_last().take(k) =~= t.take(k));
        lemma_digits_prefix_le(t.drop_last(), k);
    } else {
        assert(t.take(k) =~= t);
    }
}

/// Decode a text into a buffer of `cap` bytes, zero after the decoded bytes.
/// On a bad block, the error of the first one.
pub fn decode(text: &str, cap: usize) -> (r: Result<Vec<u8>, DecodeError>)
    requires
        decoded(text@).0.len() <= cap,
    ensures
        decoded(text@).1 is None ==> (r matches Ok(v) && v@ == zero_padded(decoded(text@).0, cap as nat)),
        decoded(text@).1 matches Some(e) ==> r == Err::<Vec<u8>, DecodeError>(e),
{
    let chars = chars_of(text);
    let n = chars.len();
    let mut buf: Vec<u8> = Vec::new();
    while buf.len() < cap
        invariant
            buf@.len() <= cap,
            forall|i: int| 0 <= i < buf@.len() ==> buf@[i] == 0u8,
        decreases cap - buf@.len(),
    {
        buf.push(0u8);
    }
    let blocks = split_ranges(&chars, 0, n, '-');
    let ghost all = split(chars@.subrange(0, n as int), '-');
    assert(chars@.subrange(0, n as int) =~= text@);
    let mut ind: usize = 0;
    let mut k: usize = 0;
    while k < blocks.len()
        invariant
            n == chars@.len(),
            chars@ == text@,
            all == split(text@, '-'),
            blocks@.len() == all.len(),
            forall|j: int|
                0 <= j < blocks@.len() ==> 0 <= (#[trigger] blocks@[j]).0 <= blocks@[j].1 <= n
                    && chars@.subrange(blocks@[j].0 as int, blocks@[j].1 as int) == all[j],
            decoded(text@).0.len() <= cap,
            k <= blocks@.len(),
            decode_blocks(all.take(k as int)).1 is None,
            ind == decode_blocks(all.take(k as int)).0.len(),
            buf@ == zero_padded(decode_blocks(all.take(k as int)).0, cap as nat),
        decreases blocks@.len() - k,
    {
        let (a, b) = blocks[k];
        let ghost block = all[k as int];
        let ghost prev = decode_blocks(all.take(k as int)).0;
        assert(all.take(k + 1).drop_last() =~= all.take(k as int));
        assert(all.take(k + 1).last() == block);
        let parts = split_ranges(&chars, a, b, '_');
        proof {
            lemma_split_nonempty(block, '_');
        }
        let v = match parse_range(&chars, parts[0].0, parts[0].1) {
            None => {
                proof {
                    lemma_decode_error_stays(all, k as int + 1);
                }
                return Err(DecodeError::InvalidInput);
            },
            Some(v) => v,
        };
        if parts.len() < 2 {
            proof {
                lemma_decode_error_stays(all, k as int + 1);
            }
            return Err(DecodeError::UnexpectedEnd);
        }
        let count = match parse_range(&chars, parts[1].0, parts[1].1) {
            None => {
                proof {
                    lemma_decode_error_stays(all, k as int + 1);
                }
                return Err(DecodeError::InvalidInput);
            },
            Some(c) => c,
        };
        let byte: u8 = (v % 256) as u8;
        let ghost next = prev + repeat(byte, count as nat);
        proof {
            assert(decode_blocks(all.take(k + 1)) == (next, None::<DecodeError>));
            lemma_decode_prefix(all, k + 1);
            assert(all =~= split(text@, '-'));
        }
        let mut j: usize = 0;
        while j < count
            invariant
                j <= count,
                ind + count <= cap,
                next == prev + repeat(byte, count as nat),
                ind == prev.len(),
                buf@ == zero_padded(prev + repeat(byte, j as nat), cap as nat),
            decreases count - j,
        {
            buf.set(ind + j, byte);
            j = j + 1;
            assert(buf@ =~= zero_padded(prev + repeat(byte, j as nat), cap as nat));
        }
        assert(prev + repeat(byte, count as nat) == next);
        ind = ind + count;
        k = k + 1;
    }
    assert(all.take(blocks@.len() as int) =~= all);
    Ok(buf)
}

/// Once a block fails, the decoding of any longer prefix fails with the same
/// error and the same bytes.
proof fn lemma_decode_error_stays(blocks: Seq<Seq<char>>, k: int)
    requires
        0 <= k <= blocks.len(),
        decode_blocks(blocks.take(k)).1 is Some,
    ensures
        decode_blocks(blocks) == decode_blocks(blocks.take(k)),
    decreases blocks.len(),
{
    if k < blocks.len() {
        assert(blocks.drop_last().take(k) =~= blocks.take(k));
        lemma_decode_error_stays(blocks.drop_last(), k);
    } else {
        assert(blocks.take(k) =~= blocks);
    }
}

} // verus!
