use vstd::prelude::*;

use arrayvec::ArrayString;
use vstd::utf8::encode_utf8;

use crate::text::{decimal, decimal_string};

verus! {

/// The fixed-capacity string that column titles are written into.
#[verifier::external_type_specification]
#[verifier::external_body]
pub struct ExArrayString<const CAP: usize>(ArrayString<CAP>);

/// What a title buffer holds.
pub uninterp spec fn title_text(buffer: ArrayString<128>) -> Seq<char>;

/// `ArrayString::new`: an empty buffer of 128 bytes.
#[verifier::external_body]
fn new_title_buffer() -> (b: ArrayString<128>)
    ensures
        title_text(b) == Seq::<char>::empty(),
{
    ArrayString::<128>::new()
}

/// `ArrayString::try_push_str`: appends `s` when its bytes fit in what is
/// left of the 128 bytes, and says so; else leaves the buffer as it was.
#[verifier::external_body]
fn push_title_str(b: &mut ArrayString<128>, s: &str) -> (ok: bool)
    ensures
        ok == (encode_utf8(title_text(*old(b))).len() + encode_utf8(s@).len() <= 128),
        ok ==> title_text(*final(b)) == title_text(*old(b)) + s@,
        !ok ==> title_text(*final(b)) == title_text(*old(b)),
{
    match b.try_push_str(s) {
        Ok(()) => true,
        Err(_) => false,
    }
}

/// `ArrayString::as_str`: what the buffer holds.
#[verifier::external_body]
fn title_as_str(b: &ArrayString<128>) -> (s: &str)
    ensures
        s@ == title_text(*b),
{
    b.as_str()
}

/// The UTF-8 encoding of a concatenation is the concatenation of the
/// encodings.
pub proof fn lemma_encode_utf8_concat(a: Seq<char>, b: Seq<char>)
    ensures
        encode_utf8(a + b) == encode_utf8(a) + encode_utf8(b),
    decreases a.len(),
{
    if a.len() == 0 {
        assert(a + b =~= b);
        assert(encode_utf8(a) + encode_utf8(b) =~= encode_utf8(b));
    } else {
        assert((a + b).drop_first() =~= a.drop_first() + b);
        assert((a + b)[0] == a[0]);
        lemma_encode_utf8_concat(a.drop_first(), b);
        let e = vstd::utf8::encode_scalar(a[0] as u32);
        assert(e + (encode_utf8(a.drop_first()) + encode_utf8(b)) =~= (e + encode_utf8(
            a.drop_first(),
        )) + encode_utf8(b));
    }
}

/// What writing `pieces` one after the other into a buffer that already
/// holds `used` of its 128 bytes adds to it: formatting stops at the first
/// piece that does not fit.
pub open spec fn pieces_fit(used: nat, pieces: Seq<Seq<char>>) -> Seq<char>
    decreases pieces.len(),
{
    if pieces.len() == 0 {
        Seq::empty()
    } else {
        let n = encode_utf8(pieces[0]).len();
        if used + n <= 128 {
            pieces[0] + pieces_fit(used + n, pieces.drop_first())
        } else {
            Seq::empty()
        }
    }
}

/// The texts of a list of pieces.
pub open spec fn piece_views(pieces: Seq<&str>) -> Seq<Seq<char>> {
    Seq::new(pieces.len(), |i: int| pieces[i]@)
}

/// What is written never overflows the buffer: its bytes and those already
/// held stay within the 128 bytes.
pub proof fn lemma_pieces_fit_in_buffer(used: nat, pieces: Seq<Seq<char>>)
    requires
        used <= 128,
    ensures
        used + encode_utf8(pieces_fit(used, pieces)).len() <= 128,
    decreases pieces.len(),
{
    if pieces.len() == 0 {
        assert(encode_utf8(Seq::<char>::empty()) =~= Seq::<u8>::empty());
    } else {
        let n = encode_utf8(pieces[0]).len();
        if used + n <= 128 {
            lemma_pieces_fit_in_buffer(used + n, pieces.drop_first());
            lemma_encode_utf8_concat(pieces[0], pieces_fit(used + n, pieces.drop_first()));
        } else {
            assert(encode_utf8(Seq::<char>::empty()) =~= Seq::<u8>::empty());
        }
    }
}

/// Writes the pieces of a formatted title into an empty buffer, as the
/// formatting machinery does, stopping at the first piece that does not fit.
fn write_pieces(pieces: &Vec<&str>) -> (r: String)
    ensures
        r@ == pieces_fit(0, piece_views(pieces@)),
{
    let ghost ps = piece_views(pieces@);
    let mut buffer = new_title_buffer();
    let mut i: usize = 0;
    let mut used: usize = 0;
    assert(pieces_fit(0, ps.subrange(0, ps.len() as int)) == pieces_fit(0, ps)) by {
        assert(ps.subrange(0, ps.len() as int) =~= ps);
    }
    while i < pieces.len()
        invariant
            ps == piece_views(pieces@),
            i <= pieces.len(),
            used <= 128,
            used == encode_utf8(title_text(buffer)).len(),
            title_text(buffer) + pieces_fit(used as nat, ps.subrange(i as int, ps.len() as int))
                == pieces_fit(0, ps),
        decreases pieces.len() - i,
    {
        let p = pieces[i];
        let ghost before = title_text(buffer);
        let ghost rest = ps.subrange(i as int, ps.len() as int);
        assert(rest[0] == p@);
        assert(rest.drop_first() =~= ps.subrange(i + 1, ps.len() as int));
        let n = p.len();
        let ok = push_title_str(&mut buffer, p);
        if ok {
            proof {
                lemma_encode_utf8_concat(before, p@);
                assert(before + p@ + pieces_fit((used + n) as nat, rest.drop_first()) =~= before + (
                p@ + pieces_fit((used + n) as nat, rest.drop_first())));
            }
            used = used + n;
            i = i + 1;
        } else {
            proof {
                assert(pieces_fit(used as nat, rest) =~= Seq::<char>::empty());
                assert(ps.subrange(pieces.len() as int, ps.len() as int) =~= Seq::<Seq<char>>::empty());
                assert(before + Seq::<char>::empty() =~= before);
            }
            i = pieces.len();
        }
    }
    proof {
        assert(ps.subrange(i as int, ps.len() as int) =~= Seq::<Seq<char>>::empty());
        assert(title_text(buffer) + Seq::<char>::empty() =~= title_text(buffer));
    }
    let s = title_as_str(&buffer);
    String::from_str(s)
}

/// The value shown under the name of a usage column.
pub enum ColumnValue {
    /// A whole percentage.
    Percent(u32),
    /// "0%", when there is nothing to average.
    ZeroPercent,
    /// "0", when there is nothing to add up.
    Zero,
    /// A formatted amount.
    Text(String),
}

/// The pieces of a column title: the name, a line break, and the value.
pub open spec fn title_pieces(name: Seq<char>, value: ColumnValue) -> Seq<Seq<char>> {
    match value {
        ColumnValue::Percent(n) => seq![name, "\n"@, decimal(n as nat), "%"@],
        ColumnValue::ZeroPercent => seq![name, "\n0%"@],
        ColumnValue::Zero => seq![name, "\n0"@],
        ColumnValue::Text(t) => seq![name, "\n"@, t@],
    }
}

/// The title of a usage column, as written into a buffer of 128 bytes: the
/// pieces of the title that fit, up to the first one that does not.
pub fn column_title(name: &str, value: &ColumnValue) -> (r: String)
    ensures
        r@ == pieces_fit(0, title_pieces(name@, *value)),
        encode_utf8(r@).len() <= 128,
{
    proof {
        lemma_pieces_fit_in_buffer(0, title_pieces(name@, *value));
    }
    let mut pieces: Vec<&str> = Vec::new();
    pieces.push(name);
    let digits;
    match value {
        ColumnValue::Percent(n) => {
            digits = decimal_string(*n as u64);
            pieces.push("\n");
            pieces.push(digits.as_str());
            pieces.push("%");
        },
        ColumnValue::ZeroPercent => {
            pieces.push("\n0%");
        },
        ColumnValue::Zero => {
            pieces.push("\n0");
        },
        ColumnValue::Text(t) => {
            pieces.push("\n");
            pieces.push(t.as_str());
        },
    }
    assert(piece_views(pieces@) =~= title_pieces(name@, *value));
    write_pieces(&pieces)
}

/// The memory in use, for the memory column: the total (taken as 1 when it
/// is unknown, so that a share can be computed) less what is available,
/// where the free memory stands in for an available amount larger than the
/// total; never below zero. Returns that amount and the total used.
pub fn memory_used(mem_total: u64, mem_available: u64, mem_free: u64) -> (r: (u64, u64))
    ensures
        r.1 == if mem_total > 0 {
            mem_total
        } else {
            1
        },
        ({
            let avail = if mem_available > mem_total {
                mem_free
            } else {
                mem_available
            };
            r.0 == if avail >= r.1 {
                0
            } else {
                r.1 - avail
            }
        }),
{
    let total = if mem_total > 0 {
        mem_total
    } else {
        1
    };
    let avail = if mem_available > mem_total {
        mem_free
    } else {
        mem_available
    };
    (total.saturating_sub(avail), total)
}

} // verus!
