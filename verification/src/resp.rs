//! The length-prefixed bulk-array wire framing of the store's protocol.
//!
//! A command with arguments `a_0 .. a_{n-1}` is framed as an array header
//! `*<n>\r\n` followed by one bulk string `$<len>\r\n<bytes>\r\n` per
//! argument. Sizes are unsigned decimal numbers. The parser is exact: it
//! accepts a byte string iff it is such a frame whose declared sizes fit the
//! input, consumes all of it, and recovers the arguments byte for byte —
//! payload bytes are arbitrary, including the delimiter bytes themselves.
//! A size field whose value exceeds the whole input length is refused, since
//! no suffix of the input could satisfy it.

use vstd::prelude::*;
use crate::ClusterError;

verus! {

/// Carriage return, the first delimiter byte.
pub const CR: u8 = 13;

/// Line feed, the second delimiter byte.
pub const LF: u8 = 10;

/// The array header marker `*`.
pub const STAR: u8 = 42;

/// The bulk string marker `$`.
pub const DOLLAR: u8 = 36;

/// The byte `0`; decimal digits are `DIGIT_ZERO ..= DIGIT_ZERO + 9`.
pub const DIGIT_ZERO: u8 = 48;

/// The two-byte delimiter that ends every header and every payload.
pub open spec fn crlf() -> Seq<u8> {
    seq![CR, LF]
}

/// The decimal representation of `n`, most significant digit first.
pub open spec fn dec_rep(n: nat) -> Seq<u8>
    decreases n,
{
    if n < 10 {
        seq![(DIGIT_ZERO + n) as u8]
    } else {
        dec_rep(n / 10).push((DIGIT_ZERO + n % 10) as u8)
    }
}

/// The frame of one argument: `$<len>\r\n<bytes>\r\n`.
pub open spec fn enc_bulk(a: Seq<u8>) -> Seq<u8> {
    seq![DOLLAR] + dec_rep(a.len()) + crlf() + a + crlf()
}

/// The concatenated frames of a list of arguments.
pub open spec fn enc_bulks(args: Seq<Seq<u8>>) -> Seq<u8>
    decreases args.len(),
{
    if args.len() == 0 {
        Seq::empty()
    } else {
        enc_bulk(args[0]) + enc_bulks(args.drop_first())
    }
}

/// The full frame of a command: `*<n>\r\n` then one bulk string per argument.
pub open spec fn encode_command(args: Seq<Seq<u8>>) -> Seq<u8> {
    seq![STAR] + dec_rep(args.len()) + crlf() + enc_bulks(args)
}

/// Whether `b` is a decimal digit byte.
pub open spec fn is_digit(b: u8) -> bool {
    DIGIT_ZERO <= b <= DIGIT_ZERO + 9
}

/// The index just past the run of digit bytes starting at `i`.
pub open spec fn digits_end(s: Seq<u8>, i: int) -> int
    decreases s.len() - i,
{
    if 0 <= i < s.len() && is_digit(s[i]) {
        digits_end(s, i + 1)
    } else {
        i
    }
}

/// The value of the decimal digits `s[i .. j)`, most significant first.
pub open spec fn digits_val(s: Seq<u8>, i: int, j: int) -> int
    decreases j - i,
{
    if i < j {
        digits_val(s, i, j - 1) * 10 + (s[j - 1] - DIGIT_ZERO)
    } else {
        0
    }
}

/// Parses a size field at `i`: at least one digit, then `\r\n`. The value
/// must not exceed the input length — a larger size could never be satisfied.
/// Yields the value and the index just past the `\r\n`.
pub open spec fn parse_size(s: Seq<u8>, i: int) -> Option<(int, int)> {
    let j = digits_end(s, i);
    if j > i && j + 2 <= s.len() && s[j] == CR && s[j + 1] == LF && digits_val(s, i, j)
        <= s.len() {
        Some((digits_val(s, i, j), j + 2))
    } else {
        None
    }
}

/// Parses one bulk string at `i`: `$`, a size field, that many payload
/// bytes, then `\r\n`. Yields the payload and the index just past it.
pub open spec fn parse_bulk(s: Seq<u8>, i: int) -> Option<(Seq<u8>, int)> {
    if 0 <= i < s.len() && s[i] == DOLLAR {
        match parse_size(s, i + 1) {
            Some((len, j)) => {
                if j + len + 2 <= s.len() && s[j + len] == CR && s[j + len + 1] == LF {
                    Some((s.subrange(j, j + len), j + len + 2))
                } else {
                    None
                }
            },
            None => None,
        }
    } else {
        None
    }
}

/// Parses exactly `n` bulk strings starting at `i`.
pub open spec fn parse_bulks(s: Seq<u8>, i: int, n: int) -> Option<(Seq<Seq<u8>>, int)>
    decreases n,
{
    if n <= 0 {
        Some((Seq::empty(), i))
    } else {
        match parse_bulk(s, i) {
            Some((a, j)) => match parse_bulks(s, j, n - 1) {
                Some((rest, k)) => Some((seq![a] + rest, k)),
                None => None,
            },
            None => None,
        }
    }
}

/// The first frame of `s`: its arguments and the index just past it, or
/// `None` when `s` does not start with a well-formed frame. In a pipeline —
/// several frames concatenated — this reads the leading command and leaves
/// the rest.
pub open spec fn unpack_first_spec(s: Seq<u8>) -> Option<(Seq<Seq<u8>>, int)> {
    if s.len() > 0 && s[0] == STAR {
        match parse_size(s, 1) {
            Some((n, i)) => match parse_bulks(s, i, n) {
                Some((args, end)) => Some((args, end)),
                None => None,
            },
            None => None,
        }
    } else {
        None
    }
}

/// The arguments a framed command holds, or `None` when `s` is not exactly
/// one well-formed frame.
pub open spec fn unpack_spec(s: Seq<u8>) -> Option<Seq<Seq<u8>>> {
    match unpack_first_spec(s) {
        Some((args, end)) => if end == s.len() {
            Some(args)
        } else {
            None
        },
        None => None,
    }
}

/// Appends the decimal representation of `n` to `out`.
fn push_decimal(out: &mut Vec<u8>, n: usize)
    ensures
        final(out)@ == old(out)@ + dec_rep(n as nat),
    decreases n,
{
    if n < 10 {
        out.push(DIGIT_ZERO + n as u8);
        assert(final(out)@ =~= old(out)@ + dec_rep(n as nat));
    } else {
        push_decimal(out, n / 10);
        out.push(DIGIT_ZERO + (n % 10) as u8);
        assert(final(out)@ =~= old(out)@ + dec_rep(n as nat));
    }
}

/// Appends the bytes of `a` to `out`.
fn push_bytes(out: &mut Vec<u8>, a: &Vec<u8>)
    ensures
        final(out)@ == old(out)@ + a@,
{
    let n: usize = a.len();
    let mut i: usize = 0;
    while i < n
        invariant
            n == a@.len(),
            0 <= i <= n,
            out@ =~= old(out)@ + a@.subrange(0, i as int),
        decreases n - i,
    {
        out.push(a[i]);
        i = i + 1;
    }
    assert(out@ =~= old(out)@ + a@);
}

/// Appends the frame of one argument to `out`.
fn push_bulk(out: &mut Vec<u8>, a: &Vec<u8>)
    ensures
        final(out)@ == old(out)@ + enc_bulk(a@),
{
    out.push(DOLLAR);
    push_decimal(out, a.len());
    out.push(CR);
    out.push(LF);
    push_bytes(out, a);
    out.push(CR);
    out.push(LF);
    assert(final(out)@ =~= old(out)@ + enc_bulk(a@));
}

/// Law: framing one more argument appends its bulk frame.
proof fn lemma_enc_bulks_push(args: Seq<Seq<u8>>, a: Seq<u8>)
    ensures
        enc_bulks(args.push(a)) == enc_bulks(args) + enc_bulk(a),
    decreases args.len(),
{
    if args.len() == 0 {
        assert(args.push(a)[0] == a);
        assert(args.push(a).drop_first() =~= Seq::<Seq<u8>>::empty());
        assert(enc_bulks(Seq::<Seq<u8>>::empty()) == Seq::<u8>::empty());
        assert(enc_bulks(args) == Seq::<u8>::empty());
        assert(enc_bulks(args.push(a)) =~= enc_bulks(args) + enc_bulk(a));
    } else {
        lemma_enc_bulks_push(args.drop_first(), a);
        assert(args.push(a).drop_first() =~= args.drop_first().push(a));
        assert(args.push(a)[0] == args[0]);
        assert(enc_bulks(args.push(a)) == enc_bulk(args[0]) + (enc_bulks(args.drop_first())
            + enc_bulk(a)));
        assert(enc_bulks(args.push(a)) =~= enc_bulks(args) + enc_bulk(a));
    }
}

/// Frames a command: the array header, then one bulk string per argument.
pub fn pack_command(args: &Vec<Vec<u8>>) -> (r: Vec<u8>)
    ensures
        r@ == encode_command(args.deep_view()),
{
    let mut out: Vec<u8> = Vec::new();
    out.push(STAR);
    push_decimal(&mut out, args.len());
    out.push(CR);
    out.push(LF);
    assert(args.deep_view().len() == args@.len());
    assert(out@ =~= seq![STAR] + dec_rep(args.deep_view().len()) + crlf());
    let n: usize = args.len();
    let mut i: usize = 0;
    while i < n
        invariant
            n == args@.len(),
            0 <= i <= n,
            args.deep_view().len() == args@.len(),
            out@ =~= seq![STAR] + dec_rep(args.deep_view().len()) + crlf() + enc_bulks(
                args.deep_view().subrange(0, i as int),
            ),
        decreases n - i,
    {
        push_bulk(&mut out, &args[i]);
        proof {
            assert(args.deep_view()[i as int] == args@[i as int]@);
            lemma_enc_bulks_push(args.deep_view().subrange(0, i as int), args@[i as int]@);
            assert(args.deep_view().subrange(0, i as int).push(args.deep_view()[i as int])
                =~= args.deep_view().subrange(0, i + 1));
        }
        i = i + 1;
    }
    assert(args.deep_view().subrange(0, n as int) =~= args.deep_view());
    out
}

/// Law: the run of digits starting at `i` ends between `i` and the end of
/// the input, holds digits only, and is followed by a non-digit if anything
/// follows it.
proof fn lemma_digits_end_props(s: Seq<u8>, i: int)
    requires
        0 <= i <= s.len(),
    ensures
        i <= digits_end(s, i) <= s.len(),
        forall|k: int| i <= k < digits_end(s, i) ==> is_digit(s[k]),
        digits_end(s, i) < s.len() ==> !is_digit(s[digits_end(s, i)]),
    decreases s.len() - i,
{
    if i < s.len() && is_digit(s[i]) {
        lemma_digits_end_props(s, i + 1);
    }
}

/// Law: the value of a digit run never shrinks as the run is extended.
proof fn lemma_digits_val_monotone(s: Seq<u8>, i: int, j1: int, j2: int)
    requires
        0 <= i <= j1 <= j2 <= s.len(),
        forall|k: int| i <= k < j2 ==> is_digit(#[trigger] s[k]),
    ensures
        0 <= digits_val(s, i, j1) <= digits_val(s, i, j2),
    decreases j2 - i,
{
    if j1 == j2 {
        lemma_digits_val_nonneg(s, i, j1);
    } else {
        lemma_digits_val_monotone(s, i, j1, j2 - 1);
        lemma_digits_val_nonneg(s, i, j2 - 1);
        assert(is_digit(s[j2 - 1]));
    }
}

/// Law: the value of a digit run is non-negative.
proof fn lemma_digits_val_nonneg(s: Seq<u8>, i: int, j: int)
    requires
        0 <= i <= j <= s.len(),
        forall|k: int| i <= k < j ==> is_digit(#[trigger] s[k]),
    ensures
        digits_val(s, i, j) >= 0,
    decreases j - i,
{
    if i < j {
        lemma_digits_val_nonneg(s, i, j - 1);
        assert(is_digit(s[j - 1]));
    }
}

/// Finds the index just past the digit run starting at `from`.
fn scan_digits(s: &[u8], from: usize) -> (r: usize)
    requires
        from <= s@.len(),
    ensures
        r == digits_end(s@, from as int),
        from <= r <= s@.len(),
{
    let n: usize = s.len();
    let mut i: usize = from;
    while i < n
        invariant
            from <= i <= n,
            n == s@.len(),
            digits_end(s@, from as int) == digits_end(s@, i as int),
        decreases n - i,
    {
        if !(DIGIT_ZERO <= s[i] && s[i] <= DIGIT_ZERO + 9) {
            return i;
        }
        i = i + 1;
    }
    n
}

/// Parses a size field at `i`, as `parse_size` describes it.
fn parse_size_exec(s: &[u8], i: usize) -> (r: Option<(usize, usize)>)
    requires
        i <= s@.len(),
    ensures
        match r {
            Some(p) => parse_size(s@, i as int) == Some((p.0 as int, p.1 as int)) && p.0
                <= s@.len() && p.1 <= s@.len(),
            None => parse_size(s@, i as int) is None,
        },
{
    let j = scan_digits(s, i);
    proof {
        lemma_digits_end_props(s@, i as int);
    }
    if j == i {
        return None;
    }
    if s.len() - j < 2 {
        return None;
    }
    if s[j] != CR || s[j + 1] != LF {
        return None;
    }
    let len_cap: u128 = s.len() as u128;
    let mut val: u128 = 0;
    let mut k: usize = i;
    while k < j
        invariant
            i <= k <= j <= s@.len(),
            j == digits_end(s@, i as int),
            forall|m: int| i <= m < j ==> is_digit(#[trigger] s@[m]),
            val == digits_val(s@, i as int, k as int),
            val <= len_cap,
            len_cap == s@.len(),
        decreases j - k,
    {
        let d: u128 = (s[k] - DIGIT_ZERO) as u128;
        val = val * 10 + d;
        k = k + 1;
        if val > len_cap {
            proof {
                lemma_digits_val_monotone(s@, i as int, k as int, j as int);
            }
            return None;
        }
    }
    Some((val as usize, j + 2))
}

/// Parses one bulk string at `i`, as `parse_bulk` describes it.
fn parse_bulk_exec(s: &[u8], i: usize) -> (r: Option<(Vec<u8>, usize)>)
    requires
        i <= s@.len(),
    ensures
        match r {
            Some(p) => parse_bulk(s@, i as int) == Some((p.0@, p.1 as int)) && p.1 <= s@.len(),
            None => parse_bulk(s@, i as int) is None,
        },
{
    if i == s.len() || s[i] != DOLLAR {
        return None;
    }
    match parse_size_exec(s, i + 1) {
        None => None,
        Some((len, j)) => {
            if len > s.len() - j {
                return None;
            }
            if s.len() - j - len < 2 {
                return None;
            }
            if s[j + len] != CR || s[j + len + 1] != LF {
                return None;
            }
            let mut payload: Vec<u8> = Vec::new();
            let end: usize = j + len;
            let mut k: usize = j;
            while k < end
                invariant
                    j <= k <= end <= s@.len(),
                    payload@ =~= s@.subrange(j as int, k as int),
                decreases end - k,
            {
                payload.push(s[k]);
                k = k + 1;
            }
            assert(payload@ =~= s@.subrange(j as int, end as int));
            Some((payload, j + len + 2))
        },
    }
}

/// Recovers the leading frame of `cmd`: its ordered argument list and the
/// index just past the frame. Fails fast with
/// `ClusterError::MalformedCommand` when `cmd` does not start with a
/// well-formed frame.
pub fn unpack_first(cmd: &[u8]) -> (r: Result<(Vec<Vec<u8>>, usize), ClusterError>)
    ensures
        (match r {
            Ok(p) => unpack_first_spec(cmd@) == Some((p.0.deep_view(), p.1 as int)) && p.1
                <= cmd@.len(),
            Err(e) => unpack_first_spec(cmd@) is None && e == ClusterError::MalformedCommand,
        }),
{
    if cmd.len() == 0 || cmd[0] != STAR {
        return Err(ClusterError::MalformedCommand);
    }
    let (n, start) = match parse_size_exec(cmd, 1) {
        Some(p) => p,
        None => {
            return Err(ClusterError::MalformedCommand);
        },
    };
    let mut args: Vec<Vec<u8>> = Vec::new();
    let mut cur: usize = start;
    let mut k: usize = 0;
    proof {
        match parse_bulks(cmd@, start as int, n as int) {
            Some(p) => {
                assert(args.deep_view() + p.0 =~~= p.0);
                assert((args.deep_view() + p.0, p.1) == p);
            },
            None => {},
        }
    }
    while k < n
        invariant
            0 <= k <= n,
            cur <= cmd@.len(),
            cmd@.len() > 0,
            cmd@[0] == STAR,
            parse_size(cmd@, 1) == Some((n as int, start as int)),
            args.deep_view().len() == k,
            (match parse_bulks(cmd@, cur as int, n - k) {
                Some(p) => parse_bulks(cmd@, start as int, n as int) == Some(
                    (args.deep_view() + p.0, p.1),
                ),
                None => parse_bulks(cmd@, start as int, n as int) is None,
            }),
        decreases n - k,
    {
        match parse_bulk_exec(cmd, cur) {
            None => {
                assert(parse_bulks(cmd@, cur as int, n - k) is None);
                return Err(ClusterError::MalformedCommand);
            },
            Some((a, j)) => {
                proof {
                    assert(parse_bulk(cmd@, cur as int) == Some((a@, j as int)));
                }
                let ghost prev = args.deep_view();
                let ghost av = a@;
                args.push(a);
                proof {
                    assert(args.deep_view() =~~= prev.push(av));
                    match parse_bulks(cmd@, j as int, n - (k + 1)) {
                        Some(p) => {
                            assert(parse_bulks(cmd@, cur as int, n - k) == Some(
                                (seq![av] + p.0, p.1),
                            ));
                            assert(prev + (seq![av] + p.0) =~~= args.deep_view() + p.0);
                        },
                        None => {
                            assert(parse_bulks(cmd@, cur as int, n - k) is None);
                        },
                    }
                }
                cur = j;
            },
        }
        k = k + 1;
    }
    assert(parse_bulks(cmd@, cur as int, 0) == Some((Seq::<Seq<u8>>::empty(), cur as int)));
    assert(args.deep_view() + Seq::<Seq<u8>>::empty() =~~= args.deep_view());
    Ok((args, cur))
}

/// Recovers the ordered argument list of a framed command, or fails fast
/// with `ClusterError::MalformedCommand` when the bytes are not exactly one
/// well-formed frame.
pub fn unpack_command(cmd: &[u8]) -> (r: Result<Vec<Vec<u8>>, ClusterError>)
    ensures
        (match r {
            Ok(args) => unpack_spec(cmd@) == Some(args.deep_view()),
            Err(e) => unpack_spec(cmd@) is None && e == ClusterError::MalformedCommand,
        }),
{
    match unpack_first(cmd) {
        Ok((args, end)) => {
            if end != cmd.len() {
                return Err(ClusterError::MalformedCommand);
            }
            Ok(args)
        },
        Err(e) => Err(e),
    }
}

/// Law: a decimal representation is at least one byte of digits.
proof fn lemma_dec_rep_digits(n: nat)
    ensures
        dec_rep(n).len() >= 1,
        forall|k: int| 0 <= k < dec_rep(n).len() ==> is_digit(#[trigger] dec_rep(n)[k]),
    decreases n,
{
    if n >= 10 {
        lemma_dec_rep_digits(n / 10);
        assert forall|k: int| 0 <= k < dec_rep(n).len() implies is_digit(
            #[trigger] dec_rep(n)[k],
        ) by {
            if k < dec_rep(n / 10).len() {
                assert(dec_rep(n)[k] == dec_rep(n / 10)[k]);
            }
        }
    }
}

/// Law: digits embedded in a larger input keep their value.
proof fn lemma_digits_val_embedded(s: Seq<u8>, i: int, j: int, n: nat)
    requires
        0 <= i <= j <= s.len(),
        s.subrange(i, j) == dec_rep(n),
    ensures
        digits_val(s, i, j) == n,
    decreases n,
{
    lemma_dec_rep_digits(n);
    assert(j - i == dec_rep(n).len());
    if n < 10 {
        assert(s[i] == dec_rep(n)[0]);
        assert(digits_val(s, i, i) == 0);
        assert(digits_val(s, i, j) == s[j - 1] - DIGIT_ZERO);
    } else {
        assert(s.subrange(i, j - 1) =~= dec_rep(n / 10)) by {
            assert forall|k: int| 0 <= k < j - 1 - i implies #[trigger] s.subrange(i, j - 1)[k]
                == dec_rep(n / 10)[k] by {
                assert(s.subrange(i, j)[k] == dec_rep(n)[k]);
            }
        }
        lemma_digits_val_embedded(s, i, j - 1, n / 10);
        assert(s[j - 1] == dec_rep(n)[j - 1 - i]);
        assert(dec_rep(n)[j - 1 - i] == DIGIT_ZERO + n % 10);
        assert(digits_val(s, i, j) == (n / 10) * 10 + n % 10);
        assert((n / 10) * 10 + n % 10 == n) by {
            vstd::arithmetic::div_mod::lemma_fundamental_div_mod(n as int, 10);
        }
    }
}

/// Law: a run known to be all digits and delimited on the right is exactly
/// what `digits_end` finds.
proof fn lemma_digits_end_embedded(s: Seq<u8>, i: int, j: int)
    requires
        0 <= i <= j <= s.len(),
        forall|k: int| i <= k < j ==> is_digit(#[trigger] s[k]),
        j == s.len() || !is_digit(s[j]),
    ensures
        digits_end(s, i) == j,
    decreases j - i,
{
    if i < j {
        lemma_digits_end_embedded(s, i + 1, j);
    }
}

/// Law: the concatenated frames are at least as long as the argument list.
proof fn lemma_enc_bulks_len(args: Seq<Seq<u8>>)
    ensures
        enc_bulks(args).len() >= args.len(),
    decreases args.len(),
{
    if args.len() > 0 {
        lemma_enc_bulks_len(args.drop_first());
        lemma_dec_rep_digits(args[0].len());
    }
}

/// Law: a size field embedded at `i` parses to its value.
proof fn lemma_parse_size_embedded(s: Seq<u8>, i: int, n: nat)
    requires
        0 <= i,
        i + dec_rep(n).len() + 2 <= s.len(),
        s.subrange(i, i + dec_rep(n).len()) == dec_rep(n),
        s[i + dec_rep(n).len()] == CR,
        s[i + dec_rep(n).len() + 1] == LF,
        n <= s.len(),
    ensures
        parse_size(s, i) == Some((n as int, i + dec_rep(n).len() + 2)),
{
    lemma_dec_rep_digits(n);
    let j = i + dec_rep(n).len();
    assert forall|k: int| i <= k < j implies is_digit(#[trigger] s[k]) by {
        assert(s.subrange(i, j)[k - i] == dec_rep(n)[k - i]);
    }
    assert(!is_digit(s[j]));
    lemma_digits_end_embedded(s, i, j);
    lemma_digits_val_embedded(s, i, j, n);
}

/// Law: a bulk frame embedded at `i` parses to its payload.
proof fn lemma_parse_bulk_embedded(s: Seq<u8>, i: int, a: Seq<u8>)
    requires
        0 <= i,
        i + enc_bulk(a).len() <= s.len(),
        s.subrange(i, i + enc_bulk(a).len()) == enc_bulk(a),
    ensures
        parse_bulk(s, i) == Some((a, i + enc_bulk(a).len())),
{
    let e = enc_bulk(a);
    let dlen = dec_rep(a.len()).len() as int;
    let alen = a.len() as int;
    lemma_dec_rep_digits(a.len());
    assert(e.len() == 1 + dlen + 2 + a.len() + 2);
    assert forall|k: int| 0 <= k < e.len() implies s[i + k] == e[k] by {
        assert(s.subrange(i, i + e.len())[k] == e[k]);
    }
    assert(e[0] == DOLLAR);
    assert(s[i] == DOLLAR);
    // the size field of the bulk frame
    assert(s.subrange(i + 1, i + 1 + dlen) =~= dec_rep(a.len())) by {
        assert forall|k: int| 0 <= k < dlen implies s.subrange(i + 1, i + 1 + dlen)[k] == dec_rep(
            a.len(),
        )[k] by {
            assert(s[i + 1 + k] == e[1 + k]);
            assert(e[1 + k] == dec_rep(a.len())[k]);
        }
    }
    assert(e[1 + dlen] == CR);
    assert(e[1 + dlen + 1] == LF);
    assert(a.len() <= s.len());
    lemma_parse_size_embedded(s, i + 1, a.len());
    let j = i + 1 + dlen + 2;
    assert(parse_size(s, i + 1) == Some((a.len() as int, j)));
    // the payload and its trailing delimiter
    assert(s.subrange(j, j + a.len()) =~= a) by {
        assert forall|k: int| 0 <= k < a.len() implies s.subrange(j, j + a.len())[k] == a[k] by {
            assert(s[j + k] == e[1 + dlen + 2 + k]);
            assert(e[1 + dlen + 2 + k] == a[k]);
        }
    }
    assert(e[1 + dlen + 2 + alen] == CR);
    assert(e[1 + dlen + 2 + alen + 1] == LF);
    assert(s[j + a.len()] == CR);
    assert(s[j + a.len() + 1] == LF);
}

/// Law: consecutive bulk frames embedded at `i` parse to their payloads.
proof fn lemma_parse_bulks_embedded(s: Seq<u8>, i: int, args: Seq<Seq<u8>>)
    requires
        0 <= i,
        i + enc_bulks(args).len() <= s.len(),
        s.subrange(i, i + enc_bulks(args).len()) == enc_bulks(args),
    ensures
        parse_bulks(s, i, args.len() as int) == Some((args, i + enc_bulks(args).len())),
    decreases args.len(),
{
    if args.len() == 0 {
        assert(args =~= Seq::<Seq<u8>>::empty());
    } else {
        let e0 = enc_bulk(args[0]);
        let rest = args.drop_first();
        assert(enc_bulks(args) == e0 + enc_bulks(rest));
        assert(s.subrange(i, i + e0.len()) =~= e0) by {
            assert forall|k: int| 0 <= k < e0.len() implies s.subrange(i, i + e0.len())[k]
                == e0[k] by {
                assert(s.subrange(i, i + enc_bulks(args).len())[k] == enc_bulks(args)[k]);
                assert(enc_bulks(args)[k] == e0[k]);
            }
        }
        lemma_parse_bulk_embedded(s, i, args[0]);
        let i1 = i + e0.len();
        assert(s.subrange(i1, i1 + enc_bulks(rest).len()) =~= enc_bulks(rest)) by {
            assert forall|k: int| 0 <= k < enc_bulks(rest).len() implies s.subrange(
                i1,
                i1 + enc_bulks(rest).len(),
            )[k] == enc_bulks(rest)[k] by {
                assert(s.subrange(i, i + enc_bulks(args).len())[e0.len() + k] == enc_bulks(
                    args,
                )[e0.len() + k]);
            }
        }
        lemma_parse_bulks_embedded(s, i1, rest);
        assert(seq![args[0]] + rest =~= args);
    }
}

/// Law: framing and then parsing a command recovers exactly its arguments —
/// the round trip of the codec.
pub proof fn lemma_pack_unpack(args: Seq<Seq<u8>>)
    ensures
        unpack_spec(encode_command(args)) == Some(args),
{
    let s = encode_command(args);
    let n = args.len();
    let dlen = dec_rep(n).len() as int;
    lemma_dec_rep_digits(n);
    lemma_enc_bulks_len(args);
    assert(s.len() == 1 + dlen + 2 + enc_bulks(args).len());
    assert(s[0] == STAR);
    assert(s.subrange(1, 1 + dlen) =~= dec_rep(n)) by {
        assert forall|k: int| 0 <= k < dlen implies s.subrange(1, 1 + dlen)[k] == dec_rep(n)[k] by {
            assert(s[1 + k] == (seq![STAR] + dec_rep(n) + crlf() + enc_bulks(args))[1 + k]);
        }
    }
    assert(s[1 + dlen] == CR);
    assert(s[1 + dlen + 1] == LF);
    assert(n <= s.len());
    lemma_parse_size_embedded(s, 1, n);
    let i0 = 1 + dlen + 2;
    assert(parse_size(s, 1) == Some((n as int, i0)));
    assert(s.subrange(i0, i0 + enc_bulks(args).len()) =~= enc_bulks(args)) by {
        assert forall|k: int| 0 <= k < enc_bulks(args).len() implies s.subrange(
            i0,
            i0 + enc_bulks(args).len(),
        )[k] == enc_bulks(args)[k] by {
            assert(s[i0 + k] == (seq![STAR] + dec_rep(n) + crlf() + enc_bulks(args))[i0 + k]);
        }
    }
    lemma_parse_bulks_embedded(s, i0, args);
    assert(parse_bulks(s, i0, n as int) == Some((args, s.len() as int)));
}

} // verus!
