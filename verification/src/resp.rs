use vstd::prelude::*;

verus! {

// ---------------------------------------------------------------------------
// Decimal digits
//
// RESP carries integers, bulk-string lengths and array counts as unsigned
// decimal numerals on a header line.
// ---------------------------------------------------------------------------

/// `b` is the ASCII code of a decimal digit.
pub open spec fn is_digit(b: u8) -> bool {
    48 <= b && b <= 57
}

/// `s` is a non-empty run of ASCII decimal digits.
pub open spec fn is_digits(s: Seq<u8>) -> bool {
    s.len() > 0 && forall|i: int| 0 <= i < s.len() ==> is_digit(#[trigger] s[i])
}

/// The number denoted by a run of decimal digits (most significant first).
pub open spec fn dec_val(s: Seq<u8>) -> nat
    decreases s.len(),
{
    if s.len() == 0 {
        0
    } else {
        (dec_val(s.drop_last()) * 10 + (s.last() - 48)) as nat
    }
}

/// The canonical decimal numeral of `n`: no sign, no leading zeros.
pub open spec fn dec_repr(n: nat) -> Seq<u8>
    decreases n,
{
    if n < 10 {
        seq![(48 + n) as u8]
    } else {
        dec_repr(n / 10).push((48 + n % 10) as u8)
    }
}

/// Appending a digit multiplies the value by ten and adds the digit.
pub proof fn lemma_dec_val_push(s: Seq<u8>, d: u8)
    requires
        d >= 48,
    ensures
        dec_val(s.push(d)) == dec_val(s) * 10 + (d - 48),
{
    assert(s.push(d).drop_last() =~= s);
    assert(s.push(d).last() == d);
}

/// A longer run of digits denotes at least as large a number.
pub proof fn lemma_dec_val_prefix_le(s: Seq<u8>, m: int)
    requires
        0 <= m <= s.len(),
        forall|i: int| 0 <= i < s.len() ==> is_digit(#[trigger] s[i]),
    ensures
        dec_val(s.subrange(0, m)) <= dec_val(s),
    decreases s.len() - m,
{
    if m < s.len() {
        let p = s.subrange(0, m);
        let q = s.subrange(0, m + 1);
        assert(q =~= p.push(s[m]));
        lemma_dec_val_push(p, s[m]);
        assert(dec_val(p) <= dec_val(p) * 10 + (s[m] - 48)) by (nonlinear_arith)
            requires is_digit(s[m]),
        ;
        lemma_dec_val_prefix_le(s, m + 1);
    } else {
        assert(s.subrange(0, m) =~= s);
    }
}

/// The canonical numeral consists of digits only.
pub proof fn lemma_dec_repr_digits(n: nat)
    ensures
        is_digits(dec_repr(n)),
    decreases n,
{
    if n >= 10 {
        lemma_dec_repr_digits(n / 10);
    }
}

/// Reading the canonical numeral back yields the original number.
pub proof fn lemma_dec_repr_val(n: nat)
    ensures
        dec_val(dec_repr(n)) == n,
    decreases n,
{
    if n < 10 {
        assert(dec_repr(n) =~= Seq::empty().push((48 + n) as u8));
        lemma_dec_val_push(Seq::empty(), (48 + n) as u8);
    } else {
        lemma_dec_repr_val(n / 10);
        lemma_dec_val_push(dec_repr(n / 10), (48 + n % 10) as u8);
    }
}

/// Parse `input[a..b]` as an unsigned 64-bit decimal numeral.
/// Returns the value exactly when the range is a non-empty run of digits
/// whose value fits in a `u64`.
pub fn parse_decimal(input: &Vec<u8>, a: usize, b: usize) -> (r: Option<u64>)
    requires
        a <= b && b <= input.len(),
    ensures
        ({
            let s = input@.subrange(a as int, b as int);
            r == (if is_digits(s) && dec_val(s) <= u64::MAX {
                Some(dec_val(s) as u64)
            } else {
                None::<u64>
            })
        }),
{
    let ghost s = input@.subrange(a as int, b as int);
    if a == b {
        return None;
    }
    let mut acc: u64 = 0;
    let mut i: usize = a;
    while i < b
        invariant
            a <= i <= b <= input.len(),
            s == input@.subrange(a as int, b as int),
            forall|j: int| 0 <= j < i - a ==> is_digit(#[trigger] s[j]),
            acc == dec_val(s.subrange(0, i - a)),
        decreases b - i,
    {
        let d = input[i];
        if d < 48 || d > 57 {
            proof {
                assert(s[i - a] == d);
                assert(!is_digits(s));
            }
            return None;
        }
        let dd: u64 = (d - 48) as u64;
        proof {
            assert(s.subrange(0, i + 1 - a) =~= s.subrange(0, i - a).push(s[i - a]));
            lemma_dec_val_push(s.subrange(0, i - a), s[i - a]);
        }
        if acc > (u64::MAX - dd) / 10 {
            // The value no longer fits in 64 bits; a longer run of digits
            // can only denote a larger number.
            proof {
                assert(acc * 10 + dd > u64::MAX) by (nonlinear_arith)
                    requires acc > (u64::MAX - dd) / 10, dd <= 9,
                ;
                if is_digits(s) {
                    lemma_dec_val_prefix_le(s, i + 1 - a);
                }
            }
            return None;
        }
        proof {
            assert(acc * 10 + dd <= u64::MAX) by (nonlinear_arith)
                requires acc <= (u64::MAX - dd) / 10, dd <= 9,
            ;
        }
        acc = acc * 10 + dd;
        i = i + 1;
    }
    proof {
        assert(s.subrange(0, b - a) =~= s);
    }
    Some(acc)
}

/// Render `n` as its canonical decimal numeral.
pub fn format_u64(n: u64) -> (r: Vec<u8>)
    ensures
        r@ == dec_repr(n as nat),
    decreases n,
{
    if n < 10 {
        let mut v: Vec<u8> = Vec::new();
        v.push(48 + n as u8);
        proof {
            assert(v@ =~= dec_repr(n as nat));
        }
        v
    } else {
        let mut v = format_u64(n / 10);
        v.push(48 + (n % 10) as u8);
        v
    }
}

// ---------------------------------------------------------------------------
// Header lines
//
// Every RESP value starts with a line terminated by a carriage-return /
// line-feed pair.
// ---------------------------------------------------------------------------

/// A carriage-return / line-feed pair sits at index `i`.
pub open spec fn is_crlf(s: Seq<u8>, i: int) -> bool {
    0 <= i && i + 2 <= s.len() && s[i] == 13 && s[i + 1] == 10
}

/// Length of the line content starting at `pos`, i.e. the distance to the
/// first terminator pair, or `None` when no terminator is present yet.
pub open spec fn find_line(s: Seq<u8>, pos: int) -> Option<nat>
    decreases s.len() - pos,
{
    if pos < 0 || pos + 2 > s.len() {
        None
    } else if s[pos] == 13 && s[pos + 1] == 10 {
        Some(0)
    } else {
        match find_line(s, pos + 1) {
            Some(k) => Some((k + 1) as nat),
            None => None,
        }
    }
}

/// If the first terminator after `pos` sits at `e`, the line content runs
/// from `pos` to `e`.
pub proof fn lemma_find_line_found(s: Seq<u8>, pos: int, e: int)
    requires
        0 <= pos <= e,
        is_crlf(s, e),
        forall|j: int| pos <= j < e ==> !is_crlf(s, j),
    ensures
        find_line(s, pos) == Some((e - pos) as nat),
    decreases e - pos,
{
    if pos < e {
        assert(!is_crlf(s, pos));
        lemma_find_line_found(s, pos + 1, e);
    }
}

/// Without a terminator pair there is no line.
pub proof fn lemma_find_line_none(s: Seq<u8>, pos: int)
    requires
        forall|j: int| pos <= j ==> !is_crlf(s, j),
    ensures
        find_line(s, pos) == None::<nat>,
    decreases s.len() - pos,
{
    if 0 <= pos && pos + 2 <= s.len() {
        assert(!is_crlf(s, pos));
        lemma_find_line_none(s, pos + 1);
    }
}

// ---------------------------------------------------------------------------
// Protocol values
// ---------------------------------------------------------------------------

/// A RESP protocol value as decoded from the wire.
#[derive(Debug, PartialEq, Eq)]
pub enum DataType {
    SimpleString(Vec<u8>),
    SimpleError(Vec<u8>),
    Integer(u64),
    BulkString(Vec<u8>),
    Array(Vec<DataType>),
}

/// The mathematical form of a protocol value.
pub enum ValModel {
    Simple(Seq<u8>),
    Error(Seq<u8>),
    Int(u64),
    Bulk(Seq<u8>),
    Arr(Seq<ValModel>),
}

impl DataType {
    /// The mathematical value a decoded tree stands for.
    pub open spec fn model(self) -> ValModel
        decreases self,
    {
        match self {
            DataType::SimpleString(s) => ValModel::Simple(s@),
            DataType::SimpleError(s) => ValModel::Error(s@),
            DataType::Integer(n) => ValModel::Int(n),
            DataType::BulkString(s) => ValModel::Bulk(s@),
            DataType::Array(elems) => ValModel::Arr(
                Seq::new(
                    elems@.len(),
                    |i: int|
                        if 0 <= i < elems@.len() {
                            elems@[i].model()
                        } else {
                            ValModel::Int(0)
                        },
                ),
            ),
        }
    }
}

/// The models of a sequence of decoded values, element by element.
pub open spec fn models_of(elems: Seq<DataType>) -> Seq<ValModel> {
    Seq::new(
        elems.len(),
        |i: int|
            if 0 <= i < elems.len() {
                elems[i].model()
            } else {
                ValModel::Int(0)
            },
    )
}

// ---------------------------------------------------------------------------
// Decoding
//
// `parse_at(s, pos, d)` says what one protocol value starting at byte `pos`
// of the buffer `s` denotes: a value together with the number of bytes it
// occupies, or `Incomplete` when the buffer holds only a proper prefix of a
// value, or `Bad` when no continuation of the buffer can hold one (or the
// value nests arrays deeper than the budget `d` allows).
// ---------------------------------------------------------------------------

/// Outcome of reading one value.
pub enum ParseOut {
    Val(ValModel, nat),
    Incomplete,
    Bad,
}

/// Outcome of reading a run of values.
pub enum ElemsOut {
    Vals(Seq<ValModel>, nat),
    Incomplete,
    Bad,
}

/// One protocol value at `pos`: its model and the bytes it occupies.
/// `d` is the remaining nesting budget: an array at budget zero is refused,
/// so a caller that passes a finite budget bounds the recursion depth.
pub open spec fn parse_at(s: Seq<u8>, pos: int, d: nat) -> ParseOut
    decreases s.len() - pos, 0nat,
{
    match find_line(s, pos) {
        None => ParseOut::Incomplete,
        Some(k) => {
            if k == 0 {
                ParseOut::Bad
            } else {
                let c = s[pos];
                let rest = s.subrange(pos + 1, pos + k);
                let header = k + 2;
                if c == 43 {  // '+'
                    ParseOut::Val(ValModel::Simple(rest), header)
                } else if c == 45 {  // '-'
                    ParseOut::Val(ValModel::Error(rest), header)
                } else if c == 58 {  // ':'
                    if is_digits(rest) && dec_val(rest) <= u64::MAX {
                        ParseOut::Val(ValModel::Int(dec_val(rest) as u64), header)
                    } else {
                        ParseOut::Bad
                    }
                } else if c == 36 {  // '$'
                    if is_digits(rest) && dec_val(rest) <= u64::MAX {
                        let n = dec_val(rest);
                        if pos + header + n + 2 > s.len() {
                            ParseOut::Incomplete
                        } else {
                            ParseOut::Val(
                                ValModel::Bulk(s.subrange(pos + header, pos + header + n)),
                                (header + n + 2) as nat,
                            )
                        }
                    } else {
                        ParseOut::Bad
                    }
                } else if c == 42 {  // '*'
                    if is_digits(rest) && dec_val(rest) <= u64::MAX {
                        if d == 0 {
                            ParseOut::Bad
                        } else if pos + header > s.len() {
                            ParseOut::Incomplete
                        } else {
                            match parse_elems(s, pos + header, dec_val(rest), (d - 1) as nat) {
                                ElemsOut::Vals(vs, c2) => ParseOut::Val(
                                    ValModel::Arr(vs),
                                    (header + c2) as nat,
                                ),
                                ElemsOut::Incomplete => ParseOut::Incomplete,
                                ElemsOut::Bad => ParseOut::Bad,
                            }
                        }
                    } else {
                        ParseOut::Bad
                    }
                } else {
                    ParseOut::Bad
                }
            }
        }
    }
}

/// `n` consecutive protocol values starting at `pos`, each with nesting
/// budget `d`.
pub open spec fn parse_elems(s: Seq<u8>, pos: int, n: nat, d: nat) -> ElemsOut
    decreases s.len() - pos, n,
{
    if n == 0 {
        ElemsOut::Vals(Seq::empty(), 0)
    } else {
        match parse_at(s, pos, d) {
            ParseOut::Val(v, c) => {
                if c == 0 || pos + c > s.len() {
                    ElemsOut::Bad
                } else {
                    match parse_elems(s, pos + c, (n - 1) as nat, d) {
                        ElemsOut::Vals(vs, c2) => ElemsOut::Vals(seq![v] + vs, (c + c2) as nat),
                        ElemsOut::Incomplete => ElemsOut::Incomplete,
                        ElemsOut::Bad => ElemsOut::Bad,
                    }
                }
            }
            ParseOut::Incomplete => ElemsOut::Incomplete,
            ParseOut::Bad => ElemsOut::Bad,
        }
    }
}

/// Copy `input[a..b]` into a fresh vector.
pub fn copy_range(input: &Vec<u8>, a: usize, b: usize) -> (r: Vec<u8>)
    requires
        a <= b && b <= input.len(),
    ensures
        r@ == input@.subrange(a as int, b as int),
{
    let mut r: Vec<u8> = Vec::new();
    let mut i: usize = a;
    while i < b
        invariant
            a <= i <= b <= input.len(),
            r@.len() == i - a,
            forall|j: int| 0 <= j < i - a ==> r@[j] == input@[a + j],
        decreases b - i,
    {
        r.push(input[i]);
        i = i + 1;
    }
    proof {
        assert(r@ =~= input@.subrange(a as int, b as int));
    }
    r
}

/// How many levels of array nesting the connection handler accepts: a
/// deliberate hardening guard against unbounded recursion on malicious
/// input; the reference wire format imposes no limit.
pub const MAX_DEPTH: u64 = 64;

/// Why a value could not be decoded.
#[derive(PartialEq, Eq, Structural, Clone, Copy, Debug)]
pub enum DecodeErr {
    /// The buffer ends before the value does; more bytes may complete it.
    Incomplete,
    /// The bytes cannot begin a protocol value, however the stream goes on.
    Protocol,
}

/// Decode one protocol value from `input` starting at byte `pos`, with at
/// most `depth` levels of array nesting (a deliberate hardening guard: the
/// wire format itself imposes no limit).
///
/// On success the returned tree denotes exactly what `parse_at` says the
/// bytes denote, and the returned count is the number of bytes the value
/// occupies.
pub fn decode_value(input: &Vec<u8>, pos: usize, depth: u64) -> (r: Result<
    (DataType, usize),
    DecodeErr,
>)
    requires
        pos <= input.len(),
    ensures
        match r {
            Ok((v, c)) => parse_at(input@, pos as int, depth as nat) == ParseOut::Val(
                v.model(),
                c as nat,
            ) && c > 0 && pos + c <= input.len(),
            Err(DecodeErr::Incomplete) => parse_at(input@, pos as int, depth as nat) is Incomplete,
            Err(DecodeErr::Protocol) => parse_at(input@, pos as int, depth as nat) is Bad,
        },
    decreases input.len() - pos,
{
    let ghost s = input@;
    // Find the first carriage-return / line-feed pair at or after `pos`.
    let mut le: usize = pos;
    loop
        invariant
            pos <= le <= input.len(),
            s == input@,
            forall|j: int| pos <= j < le ==> !is_crlf(s, j),
        ensures
            pos <= le && le + 2 <= input.len(),
            is_crlf(s, le as int),
            forall|j: int| pos <= j < le ==> !is_crlf(s, j),
        decreases input.len() - le,
    {
        if input.len() - le < 2 {
            // No terminator in the buffer yet.
            proof {
                assert(forall|j: int| le <= j ==> !is_crlf(s, j));
                lemma_find_line_none(s, pos as int);
            }
            return Err(DecodeErr::Incomplete);
        }
        if input[le] == 13 && input[le + 1] == 10 {
            break;
        }
        le = le + 1;
    }
    proof {
        lemma_find_line_found(s, pos as int, le as int);
    }
    let ghost k = le - pos;
    assert(find_line(s, pos as int) == Some((le - pos) as nat));
    if le == pos {
        // An empty line carries no type prefix.
        return Err(DecodeErr::Protocol);
    }
    let c = input[pos];
    let body: usize = le + 2;
    if c == 43 {  // '+'
        let content = copy_range(input, pos + 1, le);
        Ok((DataType::SimpleString(content), body - pos))
    } else if c == 45 {  // '-'
        let content = copy_range(input, pos + 1, le);
        Ok((DataType::SimpleError(content), body - pos))
    } else if c == 58 {  // ':'
        match parse_decimal(input, pos + 1, le) {
            Some(n) => Ok((DataType::Integer(n), body - pos)),
            None => Err(DecodeErr::Protocol),
        }
    } else if c == 36 {  // '$'
        match parse_decimal(input, pos + 1, le) {
            Some(n) => {
                let rem: usize = input.len() - body;
                if (rem as u64) < 2 || n > (rem as u64) - 2 {
                    return Err(DecodeErr::Incomplete);
                }
                let n_us: usize = n as usize;
                let payload = copy_range(input, body, body + n_us);
                Ok((DataType::BulkString(payload), (body - pos) + n_us + 2))
            }
            None => Err(DecodeErr::Protocol),
        }
    } else if c == 42 {  // '*'
        match parse_decimal(input, pos + 1, le) {
            Some(n) => {
                if depth == 0 {
                    return Err(DecodeErr::Protocol);
                }
                let mut elems: Vec<DataType> = Vec::new();
                let mut cur: usize = body;
                let mut i: u64 = 0;
                while i < n
                    invariant
                        s == input@,
                        depth >= 1,
                        i <= n,
                        pos < body <= cur <= input.len(),
                        elems@.len() == i,
                        parse_at(s, pos as int, depth as nat) == (match parse_elems(
                            s,
                            body as int,
                            n as nat,
                            (depth - 1) as nat,
                        ) {
                            ElemsOut::Vals(vs, c2) => ParseOut::Val(
                                ValModel::Arr(vs),
                                ((body - pos) + c2) as nat,
                            ),
                            ElemsOut::Incomplete => ParseOut::Incomplete,
                            ElemsOut::Bad => ParseOut::Bad,
                        }),
                        (match parse_elems(s, cur as int, (n - i) as nat, (depth - 1) as nat) {
                            ElemsOut::Vals(vs, c2) => parse_elems(s, body as int, n as nat, (depth - 1) as nat)
                                == ElemsOut::Vals(models_of(elems@) + vs, ((cur - body) + c2) as nat),
                            ElemsOut::Incomplete => parse_elems(s, body as int, n as nat, (depth - 1) as nat)
                                is Incomplete,
                            ElemsOut::Bad => parse_elems(s, body as int, n as nat, (depth - 1) as nat) is Bad,
                        }),
                    decreases n - i,
                {
                    match decode_value(input, cur, depth - 1) {
                        Ok((v, c2)) => {
                            proof {
                                let rest0 = parse_elems(s, cur as int + c2, (n - i - 1) as nat, (depth - 1) as nat);
                                match rest0 {
                                    ElemsOut::Vals(vs, c3) => {
                                        assert(parse_elems(s, cur as int, (n - i) as nat, (depth - 1) as nat)
                                            == ElemsOut::Vals(seq![v.model()] + vs, (c2 + c3) as nat));
                                        assert(models_of(elems@.push(v)) + vs
                                            =~= models_of(elems@) + (seq![v.model()] + vs));
                                    }
                                    _ => {}
                                }
                            }
                            elems.push(v);
                            cur = cur + c2;
                            i = i + 1;
                        }
                        Err(e) => {
                            return Err(e);
                        }
                    }
                }
                proof {
                    assert(parse_elems(s, cur as int, 0, (depth - 1) as nat) == ElemsOut::Vals(
                        Seq::<ValModel>::empty(),
                        0nat,
                    ));
                    assert(models_of(elems@) + Seq::<ValModel>::empty() =~= models_of(elems@));
                    assert(parse_elems(s, body as int, n as nat, (depth - 1) as nat)
                        == ElemsOut::Vals(models_of(elems@), (cur - body) as nat));
                    assert((DataType::Array(elems)).model() == ValModel::Arr(models_of(elems@))) by {
                        assert((DataType::Array(elems)).model()->Arr_0 =~= models_of(elems@));
                    };
                }
                Ok((DataType::Array(elems), cur - pos))
            }
            None => Err(DecodeErr::Protocol),
        }
    } else {
        Err(DecodeErr::Protocol)
    }
}

// ---------------------------------------------------------------------------
// Encoding
//
// Replies are serialized directly: each reply shape has a fixed wire form.
// ---------------------------------------------------------------------------

/// A reply to one command, ready to be serialized.
#[derive(Debug, Clone, PartialEq, Eq)]
pub enum Reply {
    /// `+text` line.
    Simple(Vec<u8>),
    /// `-message` line; the connection stays open.
    SimpleError(Vec<u8>),
    /// Length-prefixed binary-safe string.
    Bulk(Vec<u8>),
    /// The distinguished absent value, written `$-1`.
    NullBulk,
    /// Two-element array of bulk strings, as `CONFIG GET` answers.
    ConfigPair(Vec<u8>, Vec<u8>),
}

/// The mathematical form of a reply.
pub enum ReplyModel {
    Simple(Seq<u8>),
    SimpleError(Seq<u8>),
    Bulk(Seq<u8>),
    NullBulk,
    ConfigPair(Seq<u8>, Seq<u8>),
}

impl Reply {
    pub open spec fn model(self) -> ReplyModel {
        match self {
            Reply::Simple(s) => ReplyModel::Simple(s@),
            Reply::SimpleError(s) => ReplyModel::SimpleError(s@),
            Reply::Bulk(b) => ReplyModel::Bulk(b@),
            Reply::NullBulk => ReplyModel::NullBulk,
            Reply::ConfigPair(k, v) => ReplyModel::ConfigPair(k@, v@),
        }
    }
}

/// The two-byte line terminator.
pub open spec fn crlf_seq() -> Seq<u8> {
    seq![13u8, 10u8]
}

/// Wire form of a bulk string: `$`, the decimal length, a terminator, the
/// payload, a terminator.
pub open spec fn bulk_encoding(b: Seq<u8>) -> Seq<u8> {
    seq![36u8] + dec_repr(b.len()) + crlf_seq() + b + crlf_seq()
}

/// Wire form of each reply shape.
pub open spec fn reply_encoding(r: ReplyModel) -> Seq<u8> {
    match r {
        ReplyModel::Simple(s) => seq![43u8] + s + crlf_seq(),
        ReplyModel::SimpleError(s) => seq![45u8] + s + crlf_seq(),
        ReplyModel::Bulk(b) => bulk_encoding(b),
        ReplyModel::NullBulk => seq![36u8, 45u8, 49u8, 13u8, 10u8],
        ReplyModel::ConfigPair(k, v) => seq![42u8, 50u8, 13u8, 10u8] + bulk_encoding(k)
            + bulk_encoding(v),
    }
}

/// Append all of `src` to `out`.
pub fn push_all(out: &mut Vec<u8>, src: &Vec<u8>)
    ensures
        final(out)@ == old(out)@ + src@,
{
    let mut i: usize = 0;
    while i < src.len()
        invariant
            i <= src.len(),
            out@ == old(out)@ + src@.subrange(0, i as int),
        decreases src.len() - i,
    {
        proof {
            assert(old(out)@ + src@.subrange(0, i + 1) =~= (old(out)@ + src@.subrange(0, i as int)).push(src@[i as int]));
        }
        out.push(src[i]);
        i = i + 1;
    }
    proof {
        assert(src@.subrange(0, src@.len() as int) =~= src@);
    }
}

/// Append the wire form of a bulk string with payload `b` to `out`.
fn push_bulk(out: &mut Vec<u8>, b: &Vec<u8>)
    ensures
        final(out)@ == old(out)@ + bulk_encoding(b@),
{
    let ghost before = out@;
    out.push(36);
    let len_digits = format_u64(b.len() as u64);
    push_all(out, &len_digits);
    out.push(13);
    out.push(10);
    push_all(out, b);
    out.push(13);
    out.push(10);
    proof {
        assert(out@ =~= before + bulk_encoding(b@));
    }
}

/// Serialize a reply into its wire form.
pub fn encode_reply(r: &Reply) -> (out: Vec<u8>)
    ensures
        out@ == reply_encoding(r.model()),
{
    let mut out: Vec<u8> = Vec::new();
    match r {
        Reply::Simple(s) => {
            out.push(43);
            push_all(&mut out, s);
            out.push(13);
            out.push(10);
            proof {
                assert(out@ =~= reply_encoding(r.model()));
            }
        }
        Reply::SimpleError(s) => {
            out.push(45);
            push_all(&mut out, s);
            out.push(13);
            out.push(10);
            proof {
                assert(out@ =~= reply_encoding(r.model()));
            }
        }
        Reply::Bulk(b) => {
            push_bulk(&mut out, b);
            proof {
                assert(Seq::<u8>::empty() + bulk_encoding(b@) =~= bulk_encoding(b@));
            }
        }
        Reply::NullBulk => {
            out.push(36);
            out.push(45);
            out.push(49);
            out.push(13);
            out.push(10);
            proof {
                assert(out@ =~= reply_encoding(r.model()));
            }
        }
        Reply::ConfigPair(k, v) => {
            out.push(42);
            out.push(50);
            out.push(13);
            out.push(10);
            push_bulk(&mut out, k);
            push_bulk(&mut out, v);
            proof {
                assert(out@ =~= reply_encoding(r.model()));
            }
        }
    }
    out
}

// ---------------------------------------------------------------------------
// The codec round-trips bulk strings.
// ---------------------------------------------------------------------------

/// Encoding a bulk string of any length and decoding the result yields back
/// exactly the original payload, consuming the whole encoding, whatever
/// nesting budget the decoder runs under.
pub proof fn lemma_bulk_round_trip(b: Seq<u8>, d: nat)
    requires
        b.len() <= u64::MAX,
    ensures
        parse_at(bulk_encoding(b), 0, d) == ParseOut::Val(
            ValModel::Bulk(b),
            bulk_encoding(b).len(),
        ),
{
    let s = bulk_encoding(b);
    let rep = dec_repr(b.len());
    let e = 1 + rep.len() as int;
    lemma_dec_repr_digits(b.len());
    lemma_dec_repr_val(b.len());
    assert(s[0] == 36);
    assert(forall|j: int| 1 <= j < e ==> s[j] == rep[j - 1]);
    assert(s[e] == 13 && s[e + 1] == 10);
    assert(forall|j: int| 0 <= j < e ==> !is_crlf(s, j)) by {
        assert(forall|j: int| 0 <= j < e ==> #[trigger] s[j] != 13);
    }
    assert(is_crlf(s, e));
    lemma_find_line_found(s, 0, e);
    let k = e as nat;
    assert(s.subrange(1, e) =~= rep);
    assert(dec_val(s.subrange(1, e)) == b.len());
    let header = k + 2;
    assert(s.len() == header + b.len() + 2);
    assert(s.subrange(header as int, header + b.len() as int) =~= b);
}

} // verus!
