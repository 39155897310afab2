use crate::frame::Reason;
use vstd::prelude::*;
use vstd::slice::{slice_subrange, slice_to_vec};

verus! {

/// How a literal field asks the decoder to treat its dynamic table.
#[derive(Clone, Copy, Debug, PartialEq, Eq, Structural)]
pub enum Indexing {
    Incremental,
    Without,
    Never,
}

/// One representation of a header block, in the order the block holds it.
#[derive(Clone, Debug)]
pub enum Representation {
    /// A dynamic table size update to the given size.
    SizeUpdate(u32),
    /// A field taken whole from the static or the dynamic table.
    Indexed(u32),
    /// A field given as a name and a value.
    Literal { name: Vec<u8>, value: Vec<u8>, indexing: Indexing },
}

/// A header block places its size updates correctly when each stands
/// before every field and none exceeds the table size that the settings
/// allow.
pub open spec fn size_updates_valid(block: Seq<Representation>, max_size: u32) -> bool {
    forall|i: int|
        0 <= i < block.len() ==> (#[trigger] block[i] matches Representation::SizeUpdate(s) ==> s
            <= max_size && forall|j: int| 0 <= j < i ==> block[j] is SizeUpdate)
}

/// Checks the size updates of a decoded header block; a misplaced or
/// oversized one is a COMPRESSION_ERROR.
pub fn check_size_updates(block: &Vec<Representation>, max_size: u32) -> (r: Result<(), Reason>)
    ensures
        r is Ok <==> size_updates_valid(block@, max_size),
        r is Err ==> r == Err::<(), Reason>(Reason::CompressionError),
{
    let mut seen_field = false;
    let mut i: usize = 0;
    while i < block.len()
        invariant
            0 <= i <= block@.len(),
            seen_field <==> exists|j: int| 0 <= j < i && !(block@[j] is SizeUpdate),
            size_updates_valid(block@.subrange(0, i as int), max_size),
        decreases block@.len() - i,
    {
        match &block[i] {
            Representation::SizeUpdate(s) => {
                if seen_field || *s > max_size {
                    proof {
                        if seen_field {
                            let j = choose|j: int| 0 <= j < i && !(block@[j] is SizeUpdate);
                            assert(!(block@[j] is SizeUpdate));
                        }
                        assert(block@[i as int] matches Representation::SizeUpdate(s));
                    }
                    return Err(Reason::CompressionError);
                }
            },
            _ => {
                seen_field = true;
            },
        }
        proof {
            let sub = block@.subrange(0, i + 1);
            assert forall|k: int| 0 <= k < sub.len() implies (#[trigger] sub[k] matches Representation::SizeUpdate(s) ==> s
                <= max_size && forall|j: int| 0 <= j < k ==> sub[j] is SizeUpdate) by {
                if k < i {
                    assert(sub[k] == block@.subrange(0, i as int)[k]);
                    assert forall|j: int| 0 <= j < k implies sub[j] == block@.subrange(0, i as int)[j] by {}
                } else {
                    if sub[k] is SizeUpdate {
                        assert forall|j: int| 0 <= j < k implies sub[j] is SizeUpdate by {
                            assert(sub[j] == block@[j]);
                        }
                    }
                }
            }
        }
        i = i + 1;
    }
    assert(block@.subrange(0, block@.len() as int) =~= block@);
    Ok(())
}


/// The largest value the N-bit prefix of an integer holds directly.
pub open spec fn prefix_max(n: u8) -> nat {
    if n == 1 { 1 }
    else if n == 2 { 3 }
    else if n == 3 { 7 }
    else if n == 4 { 15 }
    else if n == 5 { 31 }
    else if n == 6 { 63 }
    else if n == 7 { 127 }
    else { 255 }
}

/// The continuation octets of an integer: seven bits each, least
/// significant first, the high bit set on all but the last.
pub open spec fn int_tail(v: nat) -> Seq<u8>
    decreases v,
{
    if v < 128 {
        seq![v as u8]
    } else {
        seq![((v % 128) + 128) as u8] + int_tail(v / 128)
    }
}

/// The octets of integer `v` with an N-bit prefix, the bits above the
/// prefix left zero.
pub open spec fn int_bytes(v: nat, n: u8) -> Seq<u8> {
    if v < prefix_max(n) {
        seq![v as u8]
    } else {
        seq![prefix_max(n) as u8] + int_tail((v - prefix_max(n)) as nat)
    }
}

/// The value and the number of continuation octets at the start of `b`,
/// if they end before `b` does.
pub open spec fn tail_value(b: Seq<u8>) -> Option<(nat, nat)>
    decreases b.len(),
{
    if b.len() == 0 {
        None
    } else if b[0] < 128 {
        Some((b[0] as nat, 1))
    } else {
        match tail_value(b.drop_first()) {
            Some((v, l)) => Some(((b[0] - 128) as nat + 128 * v, l + 1)),
            None => None,
        }
    }
}

/// The integer with an N-bit prefix at the start of `b` and the octets it
/// takes. Truncated input, more than five continuation octets, or a value
/// beyond 32 bits is a COMPRESSION_ERROR.
pub open spec fn parse_integer(b: Seq<u8>, n: u8) -> Result<(u32, usize), Reason> {
    if b.len() == 0 {
        Err(Reason::CompressionError)
    } else {
        let p = b[0] as nat % (prefix_max(n) + 1);
        if p < prefix_max(n) {
            Ok((p as u32, 1usize))
        } else {
            match tail_value(b.subrange(1, b.len() as int)) {
                Some((v, l)) => if l <= 5 && prefix_max(n) + v <= u32::MAX {
                    Ok(((prefix_max(n) + v) as u32, (l + 1) as usize))
                } else {
                    Err(Reason::CompressionError)
                },
                None => Err(Reason::CompressionError),
            }
        }
    }
}

fn prefix_max_exec(n: u8) -> (r: u32)
    ensures
        r == prefix_max(n),
{
    if n == 1 { 1 }
    else if n == 2 { 3 }
    else if n == 3 { 7 }
    else if n == 4 { 15 }
    else if n == 5 { 31 }
    else if n == 6 { 63 }
    else if n == 7 { 127 }
    else { 255 }
}

/// Encodes `v` with an N-bit prefix; the caller sets the bits above it.
pub fn encode_integer(v: u32, n: u8) -> (r: Vec<u8>)
    requires
        1 <= n <= 8,
    ensures
        r@ == int_bytes(v as nat, n),
{
    let max = prefix_max_exec(n);
    let mut out: Vec<u8> = Vec::new();
    if v < max {
        out.push(v as u8);
        assert(out@ =~= int_bytes(v as nat, n));
        return out;
    }
    out.push(max as u8);
    let mut rem: u32 = v - max;
    while rem >= 128
        invariant
            max == prefix_max(n),
            v >= max,
            out@ + int_tail(rem as nat) == int_bytes(v as nat, n),
        decreases rem,
    {
        let b = ((rem % 128) + 128) as u8;
        assert(int_tail(rem as nat) == seq![b] + int_tail((rem / 128) as nat));
        let ghost before = out@;
        out.push(b);
        assert(out@ + int_tail((rem / 128) as nat) =~= before + int_tail(rem as nat));
        rem = rem / 128;
    }
    let ghost before = out@;
    out.push(rem as u8);
    assert(out@ =~= before + int_tail(rem as nat));
    out
}


/// A tail value seen from `k` octets further on, where `acc` is what the
/// octets before contributed and `m` the weight of the next one.
pub open spec fn shifted(o: Option<(nat, nat)>, acc: nat, m: nat, k: nat) -> Option<(nat, nat)> {
    match o {
        Some((v, l)) => Some((acc + m * v, l + k)),
        None => None,
    }
}

proof fn lemma_tail_step(b: Seq<u8>, i: int, acc: nat, m: nat)
    requires
        0 <= i < b.len(),
        b[i] >= 128,
    ensures
        shifted(tail_value(b.subrange(i, b.len() as int)), acc, m, 0) == shifted(
            tail_value(b.subrange(i + 1, b.len() as int)),
            acc + m * (b[i] - 128) as nat,
            m * 128,
            1,
        ),
{
    let r = b.subrange(i, b.len() as int);
    assert(r.drop_first() =~= b.subrange(i + 1, b.len() as int));
    match tail_value(r.drop_first()) {
        Some((v, l)) => {
            let d = (b[i] - 128) as nat;
            assert(acc + m * (d + 128 * v) == acc + m * d + (m * 128) * v) by (nonlinear_arith);
        },
        None => {},
    }
}

/// Decodes the integer with an N-bit prefix at the start of `buf`,
/// returning it with the number of octets it took.
pub fn decode_integer(buf: &[u8], n: u8) -> (r: Result<(u32, usize), Reason>)
    requires
        1 <= n <= 8,
    ensures
        r == parse_integer(buf@, n),
{
    if buf.len() == 0 {
        return Err(Reason::CompressionError);
    }
    let max = prefix_max_exec(n);
    let p = buf[0] as u32 % (max + 1);
    if p < max {
        return Ok((p, 1));
    }
    let ghost t = buf@.subrange(1, buf@.len() as int);
    assert(buf@[0] as nat % (prefix_max(n) + 1) == p as nat);
    assert(!(buf@[0] as nat % (prefix_max(n) + 1) < prefix_max(n)));
    let mut acc: u64 = 0;
    let mut m: u64 = 1;
    let mut i: usize = 1;
    assert(buf@.subrange(1, buf@.len() as int) == t);
    while i <= 5
        invariant
            1 <= i <= 6,
            i <= buf@.len(),
            !(buf@[0] as nat % (prefix_max(n) + 1) < prefix_max(n)),
            max == prefix_max(n),
            p == max,
            t == buf@.subrange(1, buf@.len() as int),
            i == 1 ==> m == 1,
            i == 2 ==> m == 0x80,
            i == 3 ==> m == 0x4000,
            i == 4 ==> m == 0x20_0000,
            i == 5 ==> m == 0x1000_0000,
            i == 6 ==> m == 0x8_0000_0000,
            acc < m,
            shifted(tail_value(t), 0, 1, 0) == shifted(
                tail_value(buf@.subrange(i as int, buf@.len() as int)),
                acc as nat,
                m as nat,
                (i - 1) as nat,
            ),
        decreases 6 - i,
    {
        if i >= buf.len() {
            assert(buf@.subrange(i as int, buf@.len() as int).len() == 0);
            assert(tail_value(buf@.subrange(i as int, buf@.len() as int)) is None);
            assert(tail_value(t) is None);
            return Err(Reason::CompressionError);
        }
        let b = buf[i];
        if b < 128 {
            let ghost r = buf@.subrange(i as int, buf@.len() as int);
            assert(r[0] == b);
            assert(tail_value(r) == Some((b as nat, 1nat)));
            assert(tail_value(t) == Some(((acc + m * b) as nat, i as nat)));
            assert(m * (b as u64) <= 0x1000_0000 * 127) by (nonlinear_arith)
                requires
                    m <= 0x1000_0000,
                    b < 128,
            ;
            let total = max as u64 + acc + m * (b as u64);
            if total > u32::MAX as u64 {
                return Err(Reason::CompressionError);
            }
            return Ok((total as u32, i + 1));
        }
        proof {
            lemma_tail_step(buf@, i as int, acc as nat, m as nat);
            assert(shifted(tail_value(buf@.subrange(i as int, buf@.len() as int)), acc as nat, m as nat, (i - 1) as nat)
                == shifted(tail_value(buf@.subrange(i + 1, buf@.len() as int)), (acc + m * (b - 128) as nat) as nat, (m * 128) as nat, i as nat));
            assert(acc + m * ((b - 128) as u64) < m * 128) by (nonlinear_arith)
                requires
                    acc < m,
                    b < 256,
                    b >= 128,
            ;
        }
        acc = acc + m * ((b - 128) as u64);
        m = m * 128;
        i = i + 1;
    }
    Err(Reason::CompressionError)
}


proof fn lemma_tail_round_trip(w: nat, rest: Seq<u8>)
    ensures
        tail_value(int_tail(w) + rest) == Some((w, int_tail(w).len())),
    decreases w,
{
    let s = int_tail(w) + rest;
    if w < 128 {
        assert(s[0] == w as u8);
    } else {
        lemma_tail_round_trip(w / 128, rest);
        assert(s.drop_first() =~= int_tail(w / 128) + rest);
        assert(s[0] == ((w % 128) + 128) as u8);
        assert((w % 128) + 128 * (w / 128) == w);
    }
}

pub open spec fn pow128(k: nat) -> nat
    decreases k,
{
    if k == 0 { 1 } else { 128 * pow128((k - 1) as nat) }
}

proof fn lemma_tail_len(w: nat, k: nat)
    requires
        k >= 1,
        w < pow128(k),
    ensures
        int_tail(w).len() <= k,
    decreases k,
{
    if w >= 128 {
        let p = pow128((k - 1) as nat);
        assert(w / 128 < p) by (nonlinear_arith)
            requires
                w < 128 * p,
        ;
        if k == 1 {
            assert(pow128(0) == 1);
        } else {
            lemma_tail_len(w / 128, (k - 1) as nat);
        }
    }
}

/// Integer round trip: an integer encoded with an N-bit prefix decodes to
/// itself and takes exactly its own octets, whatever follows them.
pub proof fn lemma_integer_round_trip(v: u32, n: u8, rest: Seq<u8>)
    requires
        1 <= n <= 8,
    ensures
        parse_integer(int_bytes(v as nat, n) + rest, n) == Ok::<(u32, usize), Reason>(
            (v, int_bytes(v as nat, n).len() as usize),
        ),
        1 <= int_bytes(v as nat, n).len() <= 6,
{
    let max = prefix_max(n);
    let b = int_bytes(v as nat, n) + rest;
    if v < max {
        assert(b[0] == v as u8);
        assert((v as nat) % (max + 1) == v as nat) by (nonlinear_arith)
            requires
                v < max,
        ;
    } else {
        let w = (v - max) as nat;
        assert(b[0] == max as u8);
        assert(max % (max + 1) == max) by (nonlinear_arith)
            requires
                max >= 1,
        ;
        assert(b.subrange(1, b.len() as int) =~= int_tail(w) + rest);
        lemma_tail_round_trip(w, rest);
        assert(pow128(0) == 1);
        assert(pow128(1) == 128);
        assert(pow128(2) == 0x4000);
        assert(pow128(3) == 0x20_0000);
        assert(pow128(4) == 0x1000_0000);
        assert(pow128(5) == 0x8_0000_0000);
        lemma_tail_len(w, 5);
    }
}


/// A header field as a name, a value, and whether it must never be
/// indexed (a credential, say).
#[derive(Clone, Debug, PartialEq, Eq)]
pub struct HeaderField {
    pub name: Vec<u8>,
    pub value: Vec<u8>,
    pub sensitive: bool,
}

pub open spec fn field_view(f: HeaderField) -> (Seq<u8>, Seq<u8>, bool) {
    (f.name@, f.value@, f.sensitive)
}

/// First octet of a literal field with a literal name, not indexed.
pub const LITERAL_WITHOUT_INDEXING: u8 = 0x00;

/// First octet of a literal field with a literal name, never indexed.
pub const LITERAL_NEVER_INDEXED: u8 = 0x10;

/// A string literal without Huffman coding: its length with a 7-bit
/// prefix (the high bit, H, clear), then its octets.
pub open spec fn string_bytes(s: Seq<u8>) -> Seq<u8> {
    int_bytes(s.len(), 7) + s
}

/// A field as a literal with a literal name; a sensitive one is marked
/// never indexed.
pub open spec fn field_bytes(f: (Seq<u8>, Seq<u8>, bool)) -> Seq<u8> {
    seq![if f.2 { LITERAL_NEVER_INDEXED } else { LITERAL_WITHOUT_INDEXING }] + string_bytes(f.0)
        + string_bytes(f.1)
}

/// The header block of a list of fields, in order.
pub open spec fn block_bytes(fs: Seq<(Seq<u8>, Seq<u8>, bool)>) -> Seq<u8>
    decreases fs.len(),
{
    if fs.len() == 0 {
        Seq::empty()
    } else {
        block_bytes(fs.drop_last()) + field_bytes(fs.last())
    }
}

/// A raw string literal at the start of `b`, and the octets it takes.
pub open spec fn parse_string(b: Seq<u8>) -> Option<(Seq<u8>, nat)> {
    if b.len() == 0 || b[0] >= 128 {
        None
    } else {
        match parse_integer(b, 7) {
            Ok((len, k)) => if k + len <= b.len() {
                Some((b.subrange(k as int, k + len), (k + len) as nat))
            } else {
                None
            },
            Err(_) => None,
        }
    }
}

/// A literal field with a literal name at the start of `b`, and the
/// octets it takes.
pub open spec fn parse_field(b: Seq<u8>) -> Option<((Seq<u8>, Seq<u8>, bool), nat)> {
    if b.len() == 0 || (b[0] != LITERAL_WITHOUT_INDEXING && b[0] != LITERAL_NEVER_INDEXED) {
        None
    } else {
        match parse_string(b.subrange(1, b.len() as int)) {
            Some((name, k1)) => match parse_string(b.subrange((1 + k1) as int, b.len() as int)) {
                Some((value, k2)) => Some(
                    ((name, value, b[0] == LITERAL_NEVER_INDEXED), 1 + k1 + k2),
                ),
                None => None,
            },
            None => None,
        }
    }
}

/// The fields of a block made of literal fields with literal names and
/// raw strings; `None` when the block holds anything else.
pub open spec fn parse_block(b: Seq<u8>) -> Option<Seq<(Seq<u8>, Seq<u8>, bool)>>
    decreases b.len(),
{
    if b.len() == 0 {
        Some(Seq::empty())
    } else {
        match parse_field(b) {
            Some((f, k)) => if 0 < k <= b.len() {
                match parse_block(b.subrange(k as int, b.len() as int)) {
                    Some(fs) => Some(seq![f] + fs),
                    None => None,
                }
            } else {
                None
            },
            None => None,
        }
    }
}

fn encode_string(out: &mut Vec<u8>, s: &Vec<u8>)
    requires
        s@.len() <= u32::MAX,
    ensures
        final(out)@ == old(out)@ + string_bytes(s@),
{
    let len = encode_integer(s.len() as u32, 7);
    let mut i: usize = 0;
    while i < len.len()
        invariant
            i <= len@.len(),
            out@ == old(out)@ + len@.subrange(0, i as int),
        decreases len@.len() - i,
    {
        out.push(len[i]);
        assert(len@.subrange(0, i + 1) =~= len@.subrange(0, i as int).push(len@[i as int]));
        i = i + 1;
    }
    let ghost mid = out@;
    let mut j: usize = 0;
    while j < s.len()
        invariant
            j <= s@.len(),
            out@ == mid + s@.subrange(0, j as int),
        decreases s@.len() - j,
    {
        out.push(s[j]);
        assert(s@.subrange(0, j + 1) =~= s@.subrange(0, j as int).push(s@[j as int]));
        j = j + 1;
    }
    assert(len@.subrange(0, len@.len() as int) =~= len@);
    assert(s@.subrange(0, s@.len() as int) =~= s@);
    assert(out@ =~= old(out)@ + string_bytes(s@));
}

/// Encodes a header list as a block of literal fields with literal names
/// and raw strings; sensitive fields are marked never indexed.
pub fn encode_block(fields: &Vec<HeaderField>) -> (r: Vec<u8>)
    requires
        forall|i: int|
            0 <= i < fields@.len() ==> #[trigger] fields@[i].name@.len() <= u32::MAX
                && fields@[i].value@.len() <= u32::MAX,
    ensures
        r@ == block_bytes(fields@.map_values(|f: HeaderField| field_view(f))),
{
    let ghost fs = fields@.map_values(|f: HeaderField| field_view(f));
    let mut out: Vec<u8> = Vec::new();
    let mut i: usize = 0;
    while i < fields.len()
        invariant
            i <= fields@.len(),
            fs == fields@.map_values(|f: HeaderField| field_view(f)),
            forall|i: int|
                0 <= i < fields@.len() ==> #[trigger] fields@[i].name@.len() <= u32::MAX
                    && fields@[i].value@.len() <= u32::MAX,
            out@ == block_bytes(fs.subrange(0, i as int)),
        decreases fields@.len() - i,
    {
        let f = &fields[i];
        let ghost before = out@;
        if f.sensitive {
            out.push(LITERAL_NEVER_INDEXED);
        } else {
            out.push(LITERAL_WITHOUT_INDEXING);
        }
        encode_string(&mut out, &f.name);
        encode_string(&mut out, &f.value);
        proof {
            let sub = fs.subrange(0, i + 1);
            assert(sub.drop_last() =~= fs.subrange(0, i as int));
            assert(sub.last() == field_view(fields@[i as int]));
            assert(out@ =~= before + field_bytes(sub.last()));
        }
        i = i + 1;
    }
    assert(fs.subrange(0, fs.len() as int) =~= fs);
    out
}


fn decode_string(b: &[u8]) -> (r: Option<(Vec<u8>, usize)>)
    ensures
        match r {
            Some((v, k)) => parse_string(b@) == Some((v@, k as nat)),
            None => parse_string(b@) is None,
        },
{
    if b.len() == 0 || b[0] >= 128 {
        return None;
    }
    match decode_integer(b, 7) {
        Ok((len, k)) => {
            if len as usize > b.len() || k > b.len() - len as usize {
                return None;
            }
            let s = slice_to_vec(slice_subrange(b, k, k + len as usize));
            Some((s, k + len as usize))
        },
        Err(_) => None,
    }
}

fn decode_field(b: &[u8]) -> (r: Option<(HeaderField, usize)>)
    ensures
        match r {
            Some((f, k)) => parse_field(b@) == Some((field_view(f), k as nat)),
            None => parse_field(b@) is None,
        },
{
    if b.len() == 0 || (b[0] != LITERAL_WITHOUT_INDEXING && b[0] != LITERAL_NEVER_INDEXED) {
        return None;
    }
    let rest = slice_subrange(b, 1, b.len());
    match decode_string(rest) {
        Some((name, k1)) => {
            let rest2 = slice_subrange(b, 1 + k1, b.len());
            assert(rest2@ == b@.subrange((1 + k1) as int, b@.len() as int));
            match decode_string(rest2) {
                Some((value, k2)) => Some(
                    (
                        HeaderField { name, value, sensitive: b[0] == LITERAL_NEVER_INDEXED },
                        1 + k1 + k2,
                    ),
                ),
                None => None,
            }
        },
        None => None,
    }
}

/// The fields before `rest`, put in front of what `rest` parses to.
pub open spec fn prepend(
    done: Seq<(Seq<u8>, Seq<u8>, bool)>,
    rest: Option<Seq<(Seq<u8>, Seq<u8>, bool)>>,
) -> Option<Seq<(Seq<u8>, Seq<u8>, bool)>> {
    match rest {
        Some(fs) => Some(done + fs),
        None => None,
    }
}

/// Decodes a block of literal fields with literal names and raw strings.
/// A block holding any other representation, or cut short, is a
/// COMPRESSION_ERROR.
pub fn decode_block(buf: &[u8]) -> (r: Result<Vec<HeaderField>, Reason>)
    ensures
        match r {
            Ok(v) => parse_block(buf@) == Some(v@.map_values(|f: HeaderField| field_view(f))),
            Err(e) => parse_block(buf@) is None && e == Reason::CompressionError,
        },
{
    let mut out: Vec<HeaderField> = Vec::new();
    let mut pos: usize = 0;
    assert(buf@.subrange(0, buf@.len() as int) =~= buf@);
    while pos < buf.len()
        invariant
            pos <= buf@.len(),
            parse_block(buf@) == prepend(
                out@.map_values(|f: HeaderField| field_view(f)),
                parse_block(buf@.subrange(pos as int, buf@.len() as int)),
            ),
        decreases buf@.len() - pos,
    {
        let rest = slice_subrange(buf, pos, buf.len());
        match decode_field(rest) {
            Some((f, k)) => {
                if k == 0 || k > rest.len() {
                    return Err(Reason::CompressionError);
                }
                proof {
                    let old_view = out@.map_values(|f: HeaderField| field_view(f));
                    assert(rest@.subrange(k as int, rest@.len() as int) =~= buf@.subrange(
                        (pos + k) as int,
                        buf@.len() as int,
                    ));
                    assert(old_view.push(field_view(f)) =~= out@.push(f).map_values(
                        |f: HeaderField| field_view(f),
                    ));
                    match parse_block(buf@.subrange((pos + k) as int, buf@.len() as int)) {
                        Some(fs) => {
                            assert(old_view + (seq![field_view(f)] + fs) =~= old_view.push(
                                field_view(f),
                            ) + fs);
                        },
                        None => {},
                    }
                }
                out.push(f);
                pos = pos + k;
            },
            None => {
                return Err(Reason::CompressionError);
            },
        }
    }
    proof {
        assert(buf@.subrange(pos as int, buf@.len() as int).len() == 0);
        assert(out@.map_values(|f: HeaderField| field_view(f)) + Seq::<(Seq<u8>, Seq<u8>, bool)>::empty()
            =~= out@.map_values(|f: HeaderField| field_view(f)));
    }
    Ok(out)
}


proof fn lemma_string_round_trip(s: Seq<u8>, rest: Seq<u8>)
    requires
        s.len() <= u32::MAX,
    ensures
        parse_string(string_bytes(s) + rest) == Some((s, string_bytes(s).len())),
{
    let v = s.len() as u32;
    let ib = int_bytes(v as nat, 7);
    let b = string_bytes(s) + rest;
    assert(b =~= ib + (s + rest));
    lemma_integer_round_trip(v, 7, s + rest);
    assert(b[0] == ib[0]);
    assert(prefix_max(7) == 127);
    assert(ib[0] < 128);
    assert(b.subrange(ib.len() as int, (ib.len() + s.len()) as int) =~= s);
}

proof fn lemma_field_round_trip(f: (Seq<u8>, Seq<u8>, bool), rest: Seq<u8>)
    requires
        f.0.len() <= u32::MAX,
        f.1.len() <= u32::MAX,
    ensures
        parse_field(field_bytes(f) + rest) == Some((f, field_bytes(f).len())),
{
    let b = field_bytes(f) + rest;
    let sn = string_bytes(f.0);
    let sv = string_bytes(f.1);
    assert(b.subrange(1, b.len() as int) =~= sn + (sv + rest));
    lemma_string_round_trip(f.0, sv + rest);
    assert(b.subrange((1 + sn.len()) as int, b.len() as int) =~= sv + rest);
    lemma_string_round_trip(f.1, rest);
}

proof fn lemma_block_front(fs: Seq<(Seq<u8>, Seq<u8>, bool)>)
    requires
        fs.len() > 0,
    ensures
        block_bytes(fs) == field_bytes(fs[0]) + block_bytes(fs.drop_first()),
    decreases fs.len(),
{
    if fs.len() == 1 {
        assert(fs.drop_last().len() == 0);
        assert(fs.drop_first().len() == 0);
        assert(block_bytes(fs.drop_last()) == Seq::<u8>::empty());
        assert(block_bytes(fs.drop_first()) == Seq::<u8>::empty());
        assert(fs.last() == fs[0]);
        assert(block_bytes(fs) =~= field_bytes(fs[0]) + block_bytes(fs.drop_first()));
    } else {
        lemma_block_front(fs.drop_last());
        assert(fs.drop_last()[0] == fs[0]);
        assert(fs.drop_last().drop_first() =~= fs.drop_first().drop_last());
        assert(fs.drop_first().last() == fs.last());
        assert(block_bytes(fs) =~= field_bytes(fs[0]) + block_bytes(fs.drop_first()));
    }
}

/// Every name and value of a header list has a length that a 32-bit
/// integer holds.
pub open spec fn fields_fit(fs: Seq<(Seq<u8>, Seq<u8>, bool)>) -> bool {
    forall|i: int| 0 <= i < fs.len() ==> #[trigger] fs[i].0.len() <= u32::MAX && fs[i].1.len() <= u32::MAX
}

/// Header block round trip: a header list encoded as literal fields
/// decodes to the same names, values and sensitivity, in the same order.
pub proof fn lemma_block_round_trip(fs: Seq<(Seq<u8>, Seq<u8>, bool)>)
    requires
        fields_fit(fs),
    ensures
        parse_block(block_bytes(fs)) == Some(fs),
    decreases fs.len(),
{
    if fs.len() == 0 {
        assert(block_bytes(fs).len() == 0);
        assert(fs =~= Seq::<(Seq<u8>, Seq<u8>, bool)>::empty());
    } else {
        lemma_block_front(fs);
        let b = block_bytes(fs);
        let tail = block_bytes(fs.drop_first());
        assert(fs[0].0.len() <= u32::MAX && fs[0].1.len() <= u32::MAX);
        lemma_field_round_trip(fs[0], tail);
        let k = field_bytes(fs[0]).len();
        assert(b.subrange(k as int, b.len() as int) =~= tail);
        assert(fields_fit(fs.drop_first())) by {
            assert forall|i: int| 0 <= i < fs.drop_first().len() implies #[trigger] fs.drop_first()[i].0.len()
                <= u32::MAX && fs.drop_first()[i].1.len() <= u32::MAX by {
                assert(fs.drop_first()[i] == fs[i + 1]);
            }
        }
        lemma_block_round_trip(fs.drop_first());
        assert(seq![fs[0]] + fs.drop_first() =~= fs);
    }
}

/// Whether an octet starts a dynamic table size update (`001xxxxx`).
pub open spec fn is_size_update(b: u8) -> bool {
    0x20 <= b < 0x40
}

/// The dynamic table size updates at the start of `b`, and the octets
/// they take. One above `max_size`, the size the settings allow, or one
/// cut short, is a COMPRESSION_ERROR.
pub open spec fn parse_updates(b: Seq<u8>, max_size: u32) -> Result<(Seq<u32>, nat), Reason>
    decreases b.len(),
{
    if b.len() == 0 || !is_size_update(b[0]) {
        Ok((Seq::empty(), 0))
    } else {
        match parse_integer(b, 5) {
            Ok((v, k)) => if v > max_size || k == 0 || k > b.len() {
                Err(Reason::CompressionError)
            } else {
                match parse_updates(b.subrange(k as int, b.len() as int), max_size) {
                    Ok((vs, k2)) => Ok((seq![v] + vs, (k + k2) as nat)),
                    Err(e) => Err(e),
                }
            },
            Err(e) => Err(e),
        }
    }
}

/// What a header block decodes to: its leading size updates, then its
/// fields. A size update anywhere after the first field is not a field,
/// so such a block is a COMPRESSION_ERROR, as is any block of other
/// representations.
pub open spec fn parse_header_block(b: Seq<u8>, max_size: u32) -> Result<
    (Seq<u32>, Seq<(Seq<u8>, Seq<u8>, bool)>),
    Reason,
> {
    match parse_updates(b, max_size) {
        Ok((vs, k)) => match parse_block(b.subrange(k as int, b.len() as int)) {
            Some(fs) => Ok((vs, fs)),
            None => Err(Reason::CompressionError),
        },
        Err(e) => Err(e),
    }
}

/// The updates before `rest`, put in front of what `rest` parses to.
pub open spec fn shift_updates(
    done: Seq<u32>,
    off: nat,
    rest: Result<(Seq<u32>, nat), Reason>,
) -> Result<(Seq<u32>, nat), Reason> {
    match rest {
        Ok((vs, k)) => Ok((done + vs, off + k)),
        Err(e) => Err(e),
    }
}

/// Decodes a header block: the dynamic table size updates that lead it,
/// each within `max_size`, then its literal fields.
pub fn decode_header_block(buf: &[u8], max_size: u32) -> (r: Result<
    (Vec<u32>, Vec<HeaderField>),
    Reason,
>)
    ensures
        match r {
            Ok((vs, fs)) => parse_header_block(buf@, max_size) == Ok::<
                (Seq<u32>, Seq<(Seq<u8>, Seq<u8>, bool)>),
                Reason,
            >((vs@, fs@.map_values(|f: HeaderField| field_view(f)))),
            Err(e) => parse_header_block(buf@, max_size) == Err::<
                (Seq<u32>, Seq<(Seq<u8>, Seq<u8>, bool)>),
                Reason,
            >(e),
        },
{
    let mut updates: Vec<u32> = Vec::new();
    let mut pos: usize = 0;
    assert(buf@.subrange(0, buf@.len() as int) =~= buf@);
    assert(updates@ + Seq::<u32>::empty() =~= updates@);
    while pos < buf.len() && buf[pos] >= 0x20 && buf[pos] < 0x40
        invariant
            pos <= buf@.len(),
            parse_updates(buf@, max_size) == shift_updates(
                updates@,
                pos as nat,
                parse_updates(buf@.subrange(pos as int, buf@.len() as int), max_size),
            ),
        decreases buf@.len() - pos,
    {
        let rest = slice_subrange(buf, pos, buf.len());
        assert(rest@[0] == buf@[pos as int]);
        match decode_integer(rest, 5) {
            Ok((v, k)) => {
                if v > max_size || k == 0 || k > rest.len() {
                    return Err(Reason::CompressionError);
                }
                proof {
                    assert(rest@.subrange(k as int, rest@.len() as int) =~= buf@.subrange(
                        (pos + k) as int,
                        buf@.len() as int,
                    ));
                    match parse_updates(buf@.subrange((pos + k) as int, buf@.len() as int), max_size) {
                        Ok((vs, k2)) => {
                            assert(updates@ + (seq![v] + vs) =~= updates@.push(v) + vs);
                        },
                        Err(_) => {},
                    }
                }
                updates.push(v);
                pos = pos + k;
            },
            Err(e) => {
                return Err(e);
            },
        }
    }
    proof {
        if pos < buf@.len() {
            assert(buf@.subrange(pos as int, buf@.len() as int)[0] == buf@[pos as int]);
        }
        assert(updates@ + Seq::<u32>::empty() =~= updates@);
    }
    let rest = slice_subrange(buf, pos, buf.len());
    match decode_block(rest) {
        Ok(fields) => Ok((updates, fields)),
        Err(e) => Err(e),
    }
}

/// Header block round trip through the full block decoder: a block this
/// library encodes has no size updates and decodes to the same fields.
pub proof fn lemma_header_block_round_trip(fs: Seq<(Seq<u8>, Seq<u8>, bool)>, max_size: u32)
    requires
        fields_fit(fs),
    ensures
        parse_header_block(block_bytes(fs), max_size) == Ok::<
            (Seq<u32>, Seq<(Seq<u8>, Seq<u8>, bool)>),
            Reason,
        >((Seq::empty(), fs)),
{
    let b = block_bytes(fs);
    lemma_block_round_trip(fs);
    if fs.len() > 0 {
        lemma_block_front(fs);
        assert(b[0] == field_bytes(fs[0])[0]);
    }
    assert(b.subrange(0, b.len() as int) =~= b);
}

} // verus!
