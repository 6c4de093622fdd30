//! A byte-level JSON tree together with a verified printer.
//!
//! The wire format of the protocol is JSON text carried in UTF-8 byte
//! frames, so the tree keeps string contents as raw bytes and the printer
//! and parser work on byte sequences throughout.  Numbers are restricted
//! to unsigned integers, which is all the protocol itself uses.

use vstd::prelude::*;

verus! {

/// A JSON document; string payloads are raw UTF-8 bytes.
#[derive(Debug, PartialEq, Eq)]
pub enum Json {
    Null,
    Bool(bool),
    Int(u64),
    Str(Vec<u8>),
    Arr(Vec<Json>),
    Obj(Vec<(Vec<u8>, Json)>),
}

/// The mathematical shape of a JSON document, used by all contracts.
pub ghost enum JsonV {
    Null,
    Bool(bool),
    Int(u64),
    Str(Seq<u8>),
    Arr(Seq<JsonV>),
    Obj(Seq<(Seq<u8>, JsonV)>),
}

impl View for Json {
    type V = JsonV;

    open spec fn view(&self) -> JsonV
        decreases self, 0int,
    {
        match self {
            Json::Null => JsonV::Null,
            Json::Bool(b) => JsonV::Bool(*b),
            Json::Int(n) => JsonV::Int(*n),
            Json::Str(s) => JsonV::Str(s@),
            Json::Arr(elems) => JsonV::Arr(view_elems(elems@)),
            Json::Obj(fields) => JsonV::Obj(view_fields(fields@)),
        }
    }
}

/// The views of a sequence of JSON documents, element by element.
pub open spec fn view_elems(s: Seq<Json>) -> Seq<JsonV>
    decreases s, 1int,
{
    if s.len() == 0 {
        Seq::empty()
    } else {
        seq![s[0]@] + view_elems(s.drop_first())
    }
}

/// The views of a sequence of JSON object fields, field by field.
pub open spec fn view_fields(s: Seq<(Vec<u8>, Json)>) -> Seq<(Seq<u8>, JsonV)>
    decreases s, 1int,
{
    if s.len() == 0 {
        Seq::empty()
    } else {
        seq![(s[0].0@, s[0].1@)] + view_fields(s.drop_first())
    }
}

/// One hexadecimal digit, lower case, as an ASCII byte.
pub open spec fn hex_digit(n: u8) -> u8
    recommends
        n < 16,
{
    if n < 10 {
        (0x30 + n) as u8
    } else {
        (0x61 + (n - 10)) as u8
    }
}

/// The escaped form of one byte inside a JSON string literal.
pub open spec fn esc_byte(b: u8) -> Seq<u8> {
    if b == 0x22 {  // '"'
        seq![0x5cu8, 0x22u8]
    } else if b == 0x5c {  // '\'
        seq![0x5cu8, 0x5cu8]
    } else if b == 0x0a {  // newline
        seq![0x5cu8, 0x6eu8]
    } else if b == 0x0d {  // carriage return
        seq![0x5cu8, 0x72u8]
    } else if b == 0x09 {  // tab
        seq![0x5cu8, 0x74u8]
    } else if b < 0x20 {
        seq![0x5cu8, 0x75u8, 0x30u8, 0x30u8, hex_digit(b / 16), hex_digit(b % 16)]
    } else {
        seq![b]
    }
}

/// The escaped body of a JSON string literal.
pub open spec fn spec_esc(s: Seq<u8>) -> Seq<u8>
    decreases s.len(),
{
    if s.len() == 0 {
        Seq::empty()
    } else {
        esc_byte(s[0]) + spec_esc(s.drop_first())
    }
}

/// A whole JSON string literal, quotes included.
pub open spec fn spec_print_str(s: Seq<u8>) -> Seq<u8> {
    seq![0x22u8] + spec_esc(s) + seq![0x22u8]
}

/// The decimal digits of an unsigned integer, most significant first.
pub open spec fn spec_digits(n: u64) -> Seq<u8>
    decreases n,
{
    if n < 10 {
        seq![(0x30 + n) as u8]
    } else {
        spec_digits(n / 10) + seq![(0x30 + n % 10) as u8]
    }
}

/// The canonical printed form of a JSON document: no whitespace, object
/// fields in their stored order.
pub open spec fn spec_print(v: JsonV) -> Seq<u8>
    decreases v, 0int,
{
    match v {
        JsonV::Null => seq![0x6eu8, 0x75u8, 0x6cu8, 0x6cu8],  // null
        JsonV::Bool(b) => if b {
            seq![0x74u8, 0x72u8, 0x75u8, 0x65u8]  // true
        } else {
            seq![0x66u8, 0x61u8, 0x6cu8, 0x73u8, 0x65u8]  // false
        },
        JsonV::Int(n) => spec_digits(n),
        JsonV::Str(s) => spec_print_str(s),
        JsonV::Arr(elems) => seq![0x5bu8] + spec_print_elems(elems) + seq![0x5du8],
        JsonV::Obj(fields) => seq![0x7bu8] + spec_print_fields(fields) + seq![0x7du8],
    }
}

/// The printed elements of an array, comma separated.
pub open spec fn spec_print_elems(elems: Seq<JsonV>) -> Seq<u8>
    decreases elems, 1int,
{
    if elems.len() == 0 {
        Seq::empty()
    } else if elems.len() == 1 {
        spec_print(elems[0])
    } else {
        spec_print(elems[0]) + seq![0x2cu8] + spec_print_elems(elems.drop_first())
    }
}

/// The printed fields of an object: `"key":value`, comma separated.
pub open spec fn spec_print_fields(fields: Seq<(Seq<u8>, JsonV)>) -> Seq<u8>
    decreases fields, 1int,
{
    if fields.len() == 0 {
        Seq::empty()
    } else if fields.len() == 1 {
        spec_print_str(fields[0].0) + seq![0x3au8] + spec_print(fields[0].1)
    } else {
        spec_print_str(fields[0].0) + seq![0x3au8] + spec_print(fields[0].1) + seq![0x2cu8]
            + spec_print_fields(fields.drop_first())
    }
}

/// The length and the elements of `view_elems(s)` match `s`.
pub broadcast proof fn lemma_view_elems_len(s: Seq<Json>)
    ensures
        (#[trigger] view_elems(s)).len() == s.len(),
    decreases s.len(),
{
    if s.len() > 0 {
        lemma_view_elems_len(s.drop_first());
        assert(view_elems(s) == seq![s[0]@] + view_elems(s.drop_first()));
        assert(view_elems(s).len() == 1 + view_elems(s.drop_first()).len());
    } else {
        assert(view_elems(s) == Seq::<JsonV>::empty());
    }
}

/// Element `i` of `view_elems(s)` is the view of element `i` of `s`.
pub broadcast proof fn lemma_view_elems_index(s: Seq<Json>, i: int)
    requires
        0 <= i < s.len(),
    ensures
        #[trigger] view_elems(s)[i] == s[i]@,
    decreases s.len(),
{
    lemma_view_elems_len(s);
    assert(view_elems(s) == seq![s[0]@] + view_elems(s.drop_first()));
    if i > 0 {
        lemma_view_elems_index(s.drop_first(), i - 1);
        assert(view_elems(s)[i] == view_elems(s.drop_first())[i - 1]);
    }
}

/// The length and the elements of `view_fields(s)` match `s`.
pub broadcast proof fn lemma_view_fields_len(s: Seq<(Vec<u8>, Json)>)
    ensures
        (#[trigger] view_fields(s)).len() == s.len(),
    decreases s.len(),
{
    if s.len() > 0 {
        lemma_view_fields_len(s.drop_first());
        assert(view_fields(s) == seq![(s[0].0@, s[0].1@)] + view_fields(s.drop_first()));
        assert(view_fields(s).len() == 1 + view_fields(s.drop_first()).len());
    } else {
        assert(view_fields(s) == Seq::<(Seq<u8>, JsonV)>::empty());
    }
}

/// Field `i` of `view_fields(s)` is the view of field `i` of `s`.
pub broadcast proof fn lemma_view_fields_index(s: Seq<(Vec<u8>, Json)>, i: int)
    requires
        0 <= i < s.len(),
    ensures
        #[trigger] view_fields(s)[i] == (s[i].0@, s[i].1@),
    decreases s.len(),
{
    lemma_view_fields_len(s);
    assert(view_fields(s) == seq![(s[0].0@, s[0].1@)] + view_fields(s.drop_first()));
    if i > 0 {
        lemma_view_fields_index(s.drop_first(), i - 1);
        assert(view_fields(s)[i] == view_fields(s.drop_first())[i - 1]);
    }
}

proof fn lemma_esc_push(t: Seq<u8>, b: u8)
    ensures
        spec_esc(t.push(b)) == spec_esc(t) + esc_byte(b),
    decreases t.len(),
{
    if t.len() == 0 {
        assert(t.push(b)[0] == b);
        assert(t.push(b).drop_first() =~= Seq::<u8>::empty());
        assert(spec_esc(Seq::<u8>::empty()) == Seq::<u8>::empty());
        assert(spec_esc(t.push(b)) == esc_byte(b) + spec_esc(Seq::<u8>::empty()));
        assert(spec_esc(t.push(b)) =~= esc_byte(b));
        assert(spec_esc(t) + esc_byte(b) =~= esc_byte(b));
    } else {
        assert(t.push(b).drop_first() =~= t.drop_first().push(b));
        lemma_esc_push(t.drop_first(), b);
        assert(spec_esc(t.push(b)) =~= spec_esc(t) + esc_byte(b));
    }
}

/// One hexadecimal digit, lower case, as an ASCII byte.
fn hex_digit_exec(n: u8) -> (r: u8)
    requires
        n < 16,
    ensures
        r == hex_digit(n),
{
    if n < 10 {
        0x30 + n
    } else {
        0x61 + (n - 10)
    }
}

/// Append the JSON string literal for `s`, quotes and escapes included.
fn append_str_lit(out: &mut Vec<u8>, s: &[u8])
    ensures
        final(out)@ == old(out)@ + spec_print_str(s@),
{
    out.push(0x22);
    let ghost base: Seq<u8> = out@;
    let mut i: usize = 0;
    while i < s.len()
        invariant
            i <= s.len(),
            base == old(out)@ + seq![0x22u8],
            out@ == base + spec_esc(s@.take(i as int)),
        decreases s.len() - i,
    {
        let b = s[i];
        proof {
            assert(s@.take(i as int + 1) =~= s@.take(i as int).push(s@[i as int]));
            lemma_esc_push(s@.take(i as int), s@[i as int]);
        }
        if b == 0x22 {
            out.push(0x5c);
            out.push(0x22);
        } else if b == 0x5c {
            out.push(0x5c);
            out.push(0x5c);
        } else if b == 0x0a {
            out.push(0x5c);
            out.push(0x6e);
        } else if b == 0x0d {
            out.push(0x5c);
            out.push(0x72);
        } else if b == 0x09 {
            out.push(0x5c);
            out.push(0x74);
        } else if b < 0x20 {
            out.push(0x5c);
            out.push(0x75);
            out.push(0x30);
            out.push(0x30);
            out.push(hex_digit_exec(b / 16));
            out.push(hex_digit_exec(b % 16));
        } else {
            out.push(b);
        }
        proof {
            assert(out@ =~= base + spec_esc(s@.take(i as int + 1)));
        }
        i = i + 1;
    }
    proof {
        assert(s@.take(s@.len() as int) =~= s@);
    }
    out.push(0x22);
    proof {
        assert(out@ =~= old(out)@ + spec_print_str(s@));
    }
}

/// Append the decimal digits of `n`, most significant first.
pub fn append_digits(out: &mut Vec<u8>, n: u64)
    ensures
        final(out)@ == old(out)@ + spec_digits(n),
    decreases n,
{
    if n < 10 {
        out.push(0x30 + n as u8);
        proof {
            assert(out@ =~= old(out)@ + spec_digits(n));
        }
    } else {
        append_digits(out, n / 10);
        out.push(0x30 + (n % 10) as u8);
        proof {
            assert(out@ =~= old(out)@ + spec_digits(n));
        }
    }
}

/// Append the canonical printed form of `j`.
fn append_json(out: &mut Vec<u8>, j: &Json)
    ensures
        final(out)@ == old(out)@ + spec_print(j@),
    decreases j, 0int,
{
    match j {
        Json::Null => {
            out.push(0x6e);
            out.push(0x75);
            out.push(0x6c);
            out.push(0x6c);
            proof {
                assert(out@ =~= old(out)@ + spec_print(j@));
            }
        }
        Json::Bool(b) => {
            if *b {
                out.push(0x74);
                out.push(0x72);
                out.push(0x75);
                out.push(0x65);
            } else {
                out.push(0x66);
                out.push(0x61);
                out.push(0x6c);
                out.push(0x73);
                out.push(0x65);
            }
            proof {
                assert(out@ =~= old(out)@ + spec_print(j@));
            }
        }
        Json::Int(n) => {
            append_digits(out, *n);
        }
        Json::Str(s) => {
            append_str_lit(out, s.as_slice());
        }
        Json::Arr(elems) => {
            out.push(0x5b);
            append_elems(out, elems, 0);
            out.push(0x5d);
            proof {
                assert(elems@.subrange(0, elems@.len() as int) =~= elems@);
                assert(out@ =~= old(out)@ + spec_print(j@));
            }
        }
        Json::Obj(fields) => {
            out.push(0x7b);
            append_obj_fields(out, fields, 0);
            out.push(0x7d);
            proof {
                assert(fields@.subrange(0, fields@.len() as int) =~= fields@);
                assert(out@ =~= old(out)@ + spec_print(j@));
            }
        }
    }
}

/// Append the printed elements of `elems[i..]`, comma separated.
fn append_elems(out: &mut Vec<u8>, elems: &Vec<Json>, i: usize)
    requires
        i <= elems.len(),
    ensures
        final(out)@ == old(out)@ + spec_print_elems(
            view_elems(elems@.subrange(i as int, elems@.len() as int)),
        ),
    decreases elems, elems.len() - i,
{
    broadcast use {lemma_view_elems_len, lemma_view_elems_index};

    let ghost tail: Seq<Json> = elems@.subrange(i as int, elems@.len() as int);
    if i == elems.len() {
        proof {
            assert(spec_print_elems(view_elems(tail)) =~= Seq::<u8>::empty());
            assert(out@ =~= old(out)@ + spec_print_elems(view_elems(tail)));
        }
    } else {
        append_json(out, &elems[i]);
        proof {
            assert(tail[0] == elems@[i as int]);
            assert(view_elems(tail)[0] == elems@[i as int]@);
        }
        if i + 1 < elems.len() {
            out.push(0x2c);
        }
        append_elems(out, elems, i + 1);
        proof {
            assert(tail.drop_first() =~= elems@.subrange(i as int + 1, elems@.len() as int));
            assert(view_elems(tail).drop_first() =~= view_elems(tail.drop_first()));
            if i + 1 < elems.len() {
                assert(view_elems(tail).len() >= 2);
                assert(out@ =~= old(out)@ + spec_print_elems(view_elems(tail)));
            } else {
                assert(view_elems(tail).len() == 1);
                assert(spec_print_elems(view_elems(tail.drop_first())) =~= Seq::<u8>::empty());
                assert(out@ =~= old(out)@ + spec_print_elems(view_elems(tail)));
            }
        }
    }
}

/// Append the printed fields of `fields[i..]`, comma separated.
fn append_obj_fields(out: &mut Vec<u8>, fields: &Vec<(Vec<u8>, Json)>, i: usize)
    requires
        i <= fields.len(),
    ensures
        final(out)@ == old(out)@ + spec_print_fields(
            view_fields(fields@.subrange(i as int, fields@.len() as int)),
        ),
    decreases fields, fields.len() - i,
{
    broadcast use {lemma_view_fields_len, lemma_view_fields_index};

    let ghost tail: Seq<(Vec<u8>, Json)> = fields@.subrange(i as int, fields@.len() as int);
    if i == fields.len() {
        proof {
            assert(spec_print_fields(view_fields(tail)) =~= Seq::<u8>::empty());
            assert(out@ =~= old(out)@ + spec_print_fields(view_fields(tail)));
        }
    } else {
        let field = &fields[i];
        append_str_lit(out, field.0.as_slice());
        out.push(0x3a);
        append_json(out, &field.1);
        proof {
            assert(tail[0] == fields@[i as int]);
            assert(view_fields(tail)[0] == (fields@[i as int].0@, fields@[i as int].1@));
        }
        if i + 1 < fields.len() {
            out.push(0x2c);
        }
        append_obj_fields(out, fields, i + 1);
        proof {
            assert(tail.drop_first() =~= fields@.subrange(i as int + 1, fields@.len() as int));
            assert(view_fields(tail).drop_first() =~= view_fields(tail.drop_first()));
            if i + 1 < fields.len() {
                assert(view_fields(tail).len() >= 2);
                assert(out@ =~= old(out)@ + spec_print_fields(view_fields(tail)));
            } else {
                assert(view_fields(tail).len() == 1);
                assert(spec_print_fields(view_fields(tail.drop_first())) =~= Seq::<u8>::empty());
                assert(out@ =~= old(out)@ + spec_print_fields(view_fields(tail)));
            }
        }
    }
}

/// Print a JSON document in its canonical form: no whitespace, object
/// fields in their stored order.
pub fn print_json(j: &Json) -> (r: Vec<u8>)
    ensures
        r@ == spec_print(j@),
{
    let mut out: Vec<u8> = Vec::new();
    append_json(&mut out, j);
    out
}

/// An ASCII decimal digit.
pub open spec fn is_digit(b: u8) -> bool {
    0x30 <= b <= 0x39
}

/// The number denoted by a sequence of ASCII digits, most significant first.
pub open spec fn spec_digits_val(ds: Seq<u8>) -> int
    decreases ds.len(),
{
    if ds.len() == 0 {
        0int
    } else {
        spec_digits_val(ds.drop_last()) * 10 + (ds.last() - 0x30)
    }
}

/// The value of a digit run is never negative.
proof fn lemma_digits_val_nonneg(ds: Seq<u8>)
    requires
        forall|k: int| 0 <= k < ds.len() ==> is_digit(#[trigger] ds[k]),
    ensures
        spec_digits_val(ds) >= 0,
    decreases ds.len(),
{
    if ds.len() > 0 {
        assert(forall|k: int|
            0 <= k < ds.drop_last().len() ==> is_digit(#[trigger] ds.drop_last()[k]));
        lemma_digits_val_nonneg(ds.drop_last());
        assert(spec_digits_val(ds.drop_last()) * 10 >= 0) by (nonlinear_arith)
            requires
                spec_digits_val(ds.drop_last()) >= 0,
        ;
    }
}

/// `spec_digits(n)` is never empty and holds digits only.
pub proof fn lemma_digits_shape(n: u64)
    ensures
        spec_digits(n).len() > 0,
        forall|k: int| 0 <= k < spec_digits(n).len() ==> is_digit(#[trigger] spec_digits(n)[k]),
        is_digit(spec_digits(n)[0]),
        n >= 10 ==> spec_digits(n).len() >= 2,
        spec_digits(n)[0] == 0x30 ==> n < 10,
    decreases n,
{
    if n >= 10 {
        lemma_digits_shape(n / 10);
        assert(spec_digits(n) == spec_digits(n / 10) + seq![(0x30 + n % 10) as u8]);
        assert(spec_digits(n)[0] == spec_digits(n / 10)[0]);
        assert(n / 10 >= 1);
    }
}

/// Reading back the digits of `n` gives `n`.
pub proof fn lemma_digits_val(n: u64)
    ensures
        spec_digits_val(spec_digits(n)) == n,
    decreases n,
{
    if n < 10 {
        assert(spec_digits(n) =~= seq![(0x30 + n) as u8]);
        assert(spec_digits(n).drop_last() =~= Seq::<u8>::empty());
        assert(spec_digits_val(Seq::<u8>::empty()) == 0);
        assert(spec_digits(n).last() == (0x30 + n) as u8);
    } else {
        lemma_digits_val(n / 10);
        assert(spec_digits(n) == spec_digits(n / 10) + seq![(0x30 + n % 10) as u8]);
        assert(spec_digits(n).drop_last() =~= spec_digits(n / 10));
        assert(spec_digits(n).last() == (0x30 + n % 10) as u8);
    }
}

/// A nonempty digit run without a leading zero is the canonical digit
/// string of its value.
proof fn lemma_val_digits(ds: Seq<u8>)
    requires
        ds.len() > 0,
        forall|k: int| 0 <= k < ds.len() ==> is_digit(#[trigger] ds[k]),
        ds[0] != 0x30 || ds.len() == 1,
        spec_digits_val(ds) <= u64::MAX,
    ensures
        spec_digits(spec_digits_val(ds) as u64) == ds,
    decreases ds.len(),
{
    lemma_digits_val_nonneg(ds);
    let v = spec_digits_val(ds) as u64;
    if ds.len() == 1 {
        assert(ds.drop_last() =~= Seq::<u8>::empty());
        assert(spec_digits_val(Seq::<u8>::empty()) == 0);
        assert(ds.last() == ds[0]);
        assert(v == ds[0] - 0x30);
        assert(spec_digits(v) =~= ds);
    } else {
        let front = ds.drop_last();
        assert(forall|k: int| 0 <= k < front.len() ==> is_digit(#[trigger] front[k]));
        assert(front[0] == ds[0]);
        lemma_digits_val_nonneg(front);
        assert(spec_digits_val(ds) == spec_digits_val(front) * 10 + (ds.last() - 0x30));
        assert(spec_digits_val(front) <= spec_digits_val(front) * 10 + (ds.last() - 0x30))
            by (nonlinear_arith)
            requires
                spec_digits_val(front) >= 0,
                ds.last() - 0x30 >= 0,
        ;
        lemma_val_digits(front);
        let fv = spec_digits_val(front) as u64;
        assert(v == fv * 10 + (ds.last() - 0x30));
        // the front value is at least 1, so v >= 10 and the printer recurses
        lemma_digits_shape(fv);
        if fv == 0 {
            // front is the canonical digits of 0, namely "0", against the
            // leading-zero hypothesis
            assert(spec_digits(0u64) == seq![0x30u8]);
            assert(front[0] == 0x30);
            assert(false);
        }
        assert(v >= 10);
        assert(v / 10 == fv && v % 10 == ds.last() - 0x30) by (nonlinear_arith)
            requires
                v == fv * 10 + (ds.last() - 0x30),
                0 <= ds.last() - 0x30 < 10,
        ;
        assert(spec_digits(v) == spec_digits(fv) + seq![(0x30 + v % 10) as u8]);
        assert(spec_digits(v) =~= ds);
    }
}

/// The value of a digit run is monotone in the run: any prefix denotes at
/// most the value of the whole run.
proof fn lemma_digits_val_prefix(ds: Seq<u8>, k: int)
    requires
        0 <= k <= ds.len(),
        forall|j: int| 0 <= j < ds.len() ==> is_digit(#[trigger] ds[j]),
    ensures
        spec_digits_val(ds.take(k)) <= spec_digits_val(ds),
    decreases ds.len() - k,
{
    if k < ds.len() {
        lemma_digits_val_prefix(ds, k + 1);
        assert(ds.take(k + 1).drop_last() =~= ds.take(k));
        assert(ds.take(k + 1).last() == ds[k]);
        assert(spec_digits_val(ds.take(k + 1)) == spec_digits_val(ds.take(k)) * 10 + (ds[k]
            - 0x30));
        assert(forall|j: int| 0 <= j < ds.take(k).len() ==> is_digit(#[trigger] ds.take(k)[j]));
        lemma_digits_val_nonneg(ds.take(k));
        assert(spec_digits_val(ds.take(k)) <= spec_digits_val(ds.take(k)) * 10 + (ds[k] - 0x30))
            by (nonlinear_arith)
            requires
                spec_digits_val(ds.take(k)) >= 0,
                ds[k] - 0x30 >= 0,
        ;
    } else {
        assert(ds.take(k) =~= ds);
    }
}

/// Two equal concatenations with equally long heads have equal parts.
pub proof fn lemma_concat_cancel<A>(a: Seq<A>, b: Seq<A>, c: Seq<A>, d: Seq<A>)
    requires
        a + b == c + d,
        a.len() == c.len(),
    ensures
        a == c,
        b == d,
{
    assert forall|k: int| 0 <= k < a.len() implies a[k] == c[k] by {
        assert((a + b)[k] == a[k]);
        assert((c + d)[k] == c[k]);
    }
    assert(a =~= c);
    assert((a + b).len() == a.len() + b.len());
    assert((c + d).len() == c.len() + d.len());
    assert(b.len() == d.len());
    assert forall|k: int| 0 <= k < b.len() implies b[k] == d[k] by {
        assert((a + b)[a.len() + k] == b[k]);
        assert((c + d)[c.len() + k] == d[k]);
    }
    assert(b =~= d);
}

/// The first byte of a printed document classifies its constructor.
proof fn lemma_print_first(v: JsonV)
    ensures
        spec_print(v).len() > 0,
        v is Null ==> spec_print(v)[0] == 0x6e,
        v matches JsonV::Bool(b) && b ==> spec_print(v)[0] == 0x74,
        v matches JsonV::Bool(b) && !b ==> spec_print(v)[0] == 0x66,
        v is Int ==> is_digit(spec_print(v)[0]),
        v is Str ==> spec_print(v)[0] == 0x22,
        v is Arr ==> spec_print(v)[0] == 0x5b,
        v is Obj ==> spec_print(v)[0] == 0x7b,
{
    match v {
        JsonV::Int(n) => {
            lemma_digits_shape(n);
        }
        _ => {}
    }
}

/// `hex_digit` never collides on distinct inputs.
proof fn lemma_hex_digit_inj(x: u8, y: u8)
    requires
        x < 16,
        y < 16,
        hex_digit(x) == hex_digit(y),
    ensures
        x == y,
{
}

/// The escape chunk of one byte determines the byte, even when followed
/// by arbitrary trailing bytes.
proof fn lemma_esc_byte_unique(b1: u8, b2: u8, u1: Seq<u8>, u2: Seq<u8>)
    requires
        esc_byte(b1) + u1 == esc_byte(b2) + u2,
    ensures
        b1 == b2,
        u1 == u2,
{
    let e1 = esc_byte(b1);
    let e2 = esc_byte(b2);
    let w = e1 + u1;
    assert(e1[0] == w[0] && e2[0] == w[0]);
    if e1.len() >= 2 {
        assert(e1[1] == w[1]);
    }
    if e2.len() >= 2 {
        assert(e2[1] == w[1]);
    }
    if e1.len() == 6 && e2.len() == 6 {
        assert(e1[4] == w[4] && e1[5] == w[5]);
        assert(e2[4] == w[4] && e2[5] == w[5]);
        lemma_hex_digit_inj(b1 / 16, b2 / 16);
        lemma_hex_digit_inj(b1 % 16, b2 % 16);
        assert(b1 == (b1 / 16) * 16 + b1 % 16) by (bit_vector);
        assert(b2 == (b2 / 16) * 16 + b2 % 16) by (bit_vector);
    }
    assert(b1 == b2);
    lemma_concat_cancel(e1, u1, e2, u2);
}

/// While scanning a printed string literal, the bytes already unescaped
/// are a prefix of the literal's content, and the next bytes are forced.
proof fn lemma_esc_progress(sv: Seq<u8>, p: Seq<u8>, x: Seq<u8>, t: Seq<u8>)
    requires
        spec_esc(p) + x == spec_esc(sv) + seq![0x22u8] + t,
    ensures
        p.len() <= sv.len(),
        p == sv.take(p.len() as int),
        p.len() == sv.len() ==> x == seq![0x22u8] + t,
        p.len() < sv.len() ==> x == spec_esc(sv.skip(p.len() as int)) + seq![0x22u8] + t,
    decreases p.len(),
{
    if p.len() == 0 {
        assert(spec_esc(p) == Seq::<u8>::empty());
        assert(p =~= sv.take(0));
        if sv.len() == 0 {
            assert(spec_esc(sv) == Seq::<u8>::empty());
            assert(x =~= seq![0x22u8] + t);
        } else {
            assert(sv.skip(0) =~= sv);
            assert(x =~= spec_esc(sv.skip(0)) + seq![0x22u8] + t);
        }
    } else {
        assert(spec_esc(p) == esc_byte(p[0]) + spec_esc(p.drop_first()));
        if sv.len() == 0 {
            assert(spec_esc(sv) == Seq::<u8>::empty());
            let w = spec_esc(p) + x;
            assert(w[0] == esc_byte(p[0])[0]);
            assert(w[0] == 0x22);
            assert(esc_byte(p[0])[0] != 0x22);
            assert(false);
        } else {
            assert(spec_esc(sv) == esc_byte(sv[0]) + spec_esc(sv.drop_first()));
            assert((esc_byte(p[0]) + spec_esc(p.drop_first())) + x =~= esc_byte(p[0]) + (
            spec_esc(p.drop_first()) + x));
            assert((esc_byte(sv[0]) + spec_esc(sv.drop_first())) + seq![0x22u8] + t =~= esc_byte(
                sv[0]) + (spec_esc(sv.drop_first()) + seq![0x22u8] + t));
            lemma_esc_byte_unique(p[0], sv[0], spec_esc(p.drop_first()) + x,
                spec_esc(sv.drop_first()) + seq![0x22u8] + t);
            lemma_esc_progress(sv.drop_first(), p.drop_first(), x, t);
            assert(p.drop_first() == sv.drop_first().take(p.len() - 1));
            assert forall|k: int| 0 <= k < p.len() implies p[k] == sv.take(p.len() as int)[k] by {
                if k > 0 {
                    assert(p.drop_first()[k - 1] == sv.drop_first().take(p.len() - 1)[k - 1]);
                }
            }
            assert(p =~= sv.take(p.len() as int));
            if p.len() < sv.len() {
                assert(sv.drop_first().skip(p.len() - 1) =~= sv.skip(p.len() as int));
            }
        }
    }
}

/// A printed string literal and its trailer are determined by the bytes.
proof fn lemma_str_unique(s1: Seq<u8>, s2: Seq<u8>, t1: Seq<u8>, t2: Seq<u8>)
    requires
        spec_esc(s1) + seq![0x22u8] + t1 == spec_esc(s2) + seq![0x22u8] + t2,
    ensures
        s1 == s2,
        t1 == t2,
{
    assert(spec_esc(s1) + (seq![0x22u8] + t1) =~= spec_esc(s2) + seq![0x22u8] + t2);
    lemma_esc_progress(s2, s1, seq![0x22u8] + t1, t2);
    if s1.len() < s2.len() {
        let x = seq![0x22u8] + t1;
        assert(x == spec_esc(s2.skip(s1.len() as int)) + seq![0x22u8] + t2);
        let rest = s2.skip(s1.len() as int);
        assert(rest.len() > 0);
        assert(spec_esc(rest) == esc_byte(rest[0]) + spec_esc(rest.drop_first()));
        assert(x[0] == esc_byte(rest[0])[0]);
        assert(false);
    }
    assert(s1 == s2.take(s1.len() as int));
    assert(s1 =~= s2);
    lemma_concat_cancel(spec_esc(s1) + seq![0x22u8], t1, spec_esc(s2) + seq![0x22u8], t2);
}

/// A printed digit run with a non-digit delimiter after it determines the
/// number and the trailer.
proof fn lemma_digits_unique(n1: u64, n2: u64, t1: Seq<u8>, t2: Seq<u8>)
    requires
        spec_digits(n1) + t1 == spec_digits(n2) + t2,
        t1.len() == 0 || !is_digit(t1[0]),
        t2.len() == 0 || !is_digit(t2[0]),
    ensures
        n1 == n2,
        t1 == t2,
{
    lemma_digits_shape(n1);
    lemma_digits_shape(n2);
    let d1 = spec_digits(n1);
    let d2 = spec_digits(n2);
    let w = d1 + t1;
    if d1.len() < d2.len() {
        assert(t1[0] == w[d1.len() as int]);
        assert(d2[d1.len() as int] == w[d1.len() as int]);
        assert(false);
    }
    if d2.len() < d1.len() {
        assert(t2[0] == w[d2.len() as int]);
        assert(d1[d2.len() as int] == w[d2.len() as int]);
        assert(false);
    }
    lemma_concat_cancel(d1, t1, d2, t2);
    lemma_digits_val(n1);
    lemma_digits_val(n2);
}

/// Appending one element to a printed element list appends its print,
/// preceded by a comma when the list was not empty.
proof fn lemma_print_elems_push(ev: Seq<JsonV>, e: JsonV)
    ensures
        ev.len() == 0 ==> spec_print_elems(ev.push(e)) == spec_print(e),
        ev.len() > 0 ==> spec_print_elems(ev.push(e)) == spec_print_elems(ev) + seq![0x2cu8]
            + spec_print(e),
    decreases ev.len(),
{
    if ev.len() == 0 {
        assert(ev.push(e)[0] == e);
        assert(spec_print_elems(ev.push(e)) == spec_print(e));
    } else {
        assert(ev.push(e).drop_first() =~= ev.drop_first().push(e));
        assert(ev.push(e)[0] == ev[0]);
        lemma_print_elems_push(ev.drop_first(), e);
        if ev.len() == 1 {
            assert(spec_print_elems(ev.push(e)) == spec_print(ev[0]) + seq![0x2cu8]
                + spec_print_elems(ev.drop_first().push(e)));
            assert(spec_print_elems(ev.drop_first().push(e)) == spec_print(e));
            assert(spec_print_elems(ev) == spec_print(ev[0]));
        } else {
            assert(spec_print_elems(ev.push(e)) == spec_print(ev[0]) + seq![0x2cu8]
                + spec_print_elems(ev.drop_first().push(e)));
            assert(spec_print_elems(ev.drop_first().push(e)) == spec_print_elems(ev.drop_first())
                + seq![0x2cu8] + spec_print(e));
            assert(spec_print_elems(ev) == spec_print(ev[0]) + seq![0x2cu8] + spec_print_elems(
                ev.drop_first()));
            assert(spec_print_elems(ev.push(e)) =~= spec_print_elems(ev) + seq![0x2cu8]
                + spec_print(e));
        }
    }
}

/// Appending one field to a printed field list appends its print,
/// preceded by a comma when the list was not empty.
proof fn lemma_print_fields_push(fv: Seq<(Seq<u8>, JsonV)>, k: Seq<u8>, w: JsonV)
    ensures
        fv.len() == 0 ==> spec_print_fields(fv.push((k, w))) == spec_print_str(k) + seq![0x3au8]
            + spec_print(w),
        fv.len() > 0 ==> spec_print_fields(fv.push((k, w))) == spec_print_fields(fv)
            + seq![0x2cu8] + spec_print_str(k) + seq![0x3au8] + spec_print(w),
    decreases fv.len(),
{
    if fv.len() == 0 {
        assert(fv.push((k, w))[0] == (k, w));
        assert(spec_print_fields(fv.push((k, w))) == spec_print_str(k) + seq![0x3au8]
            + spec_print(w));
    } else {
        assert(fv.push((k, w)).drop_first() =~= fv.drop_first().push((k, w)));
        assert(fv.push((k, w))[0] == fv[0]);
        lemma_print_fields_push(fv.drop_first(), k, w);
        if fv.len() == 1 {
            assert(spec_print_fields(fv) == spec_print_str(fv[0].0) + seq![0x3au8] + spec_print(
                fv[0].1));
            assert(spec_print_fields(fv.push((k, w))) =~= spec_print_fields(fv) + seq![0x2cu8]
                + spec_print_str(k) + seq![0x3au8] + spec_print(w));
        } else {
            assert(spec_print_fields(fv.push((k, w))) =~= spec_print_fields(fv) + seq![0x2cu8]
                + spec_print_str(k) + seq![0x3au8] + spec_print(w));
        }
    }
}

/// While scanning a printed array body, the elements already read are a
/// prefix of the array, and the next bytes are forced.
#[verifier::rlimit(60)]
proof fn lemma_elems_progress(ev: Seq<JsonV>, pv: Seq<JsonV>, x: Seq<u8>, t: Seq<u8>)
    requires
        spec_print_elems(pv) + x == spec_print_elems(ev) + seq![0x5du8] + t,
        x.len() > 0,
        x[0] == 0x2c || x[0] == 0x5d,
    ensures
        pv.len() <= ev.len(),
        pv == ev.take(pv.len() as int),
        x[0] == 0x5d ==> pv == ev && x == seq![0x5du8] + t,
        x[0] == 0x2c ==> pv.len() < ev.len() && x.drop_first() == spec_print_elems(
            ev.skip(pv.len() as int),
        ) + seq![0x5du8] + t,
    decreases ev, 1int,
{
    if pv.len() == 0 {
        assert(spec_print_elems(pv) == Seq::<u8>::empty());
        assert(x =~= spec_print_elems(ev) + seq![0x5du8] + t);
        if ev.len() == 0 {
            assert(spec_print_elems(ev) == Seq::<u8>::empty());
            assert(x =~= seq![0x5du8] + t);
            assert(x[0] == 0x5d);
            assert(pv =~= ev.take(0));
        } else {
            lemma_print_first(ev[0]);
            if ev.len() == 1 {
                assert(spec_print_elems(ev) == spec_print(ev[0]));
            } else {
                assert(spec_print_elems(ev) == spec_print(ev[0]) + seq![0x2cu8]
                    + spec_print_elems(ev.drop_first()));
            }
            assert(x[0] == spec_print(ev[0])[0]);
            assert(false);
        }
    } else if ev.len() == 0 {
        lemma_print_first(pv[0]);
        if pv.len() == 1 {
            assert(spec_print_elems(pv) == spec_print(pv[0]));
        } else {
            assert(spec_print_elems(pv) == spec_print(pv[0]) + seq![0x2cu8] + spec_print_elems(
                pv.drop_first()));
        }
        assert(spec_print_elems(ev) == Seq::<u8>::empty());
        let w = spec_print_elems(pv) + x;
        assert(w[0] == spec_print(pv[0])[0]);
        assert(w[0] == (seq![0x5du8] + t)[0]);
        assert(false);
    } else {
        let a1 = if pv.len() == 1 {
            x
        } else {
            seq![0x2cu8] + spec_print_elems(pv.drop_first()) + x
        };
        let b1 = if ev.len() == 1 {
            seq![0x5du8] + t
        } else {
            seq![0x2cu8] + spec_print_elems(ev.drop_first()) + seq![0x5du8] + t
        };
        if pv.len() == 1 {
            assert(spec_print_elems(pv) == spec_print(pv[0]));
            assert(spec_print(pv[0]) + a1 =~= spec_print_elems(pv) + x);
        } else {
            assert(spec_print_elems(pv) == spec_print(pv[0]) + seq![0x2cu8] + spec_print_elems(
                pv.drop_first()));
            assert(spec_print(pv[0]) + a1 =~= spec_print_elems(pv) + x);
        }
        if ev.len() == 1 {
            assert(spec_print_elems(ev) == spec_print(ev[0]));
            assert(spec_print(ev[0]) + b1 =~= spec_print_elems(ev) + seq![0x5du8] + t);
        } else {
            assert(spec_print_elems(ev) == spec_print(ev[0]) + seq![0x2cu8] + spec_print_elems(
                ev.drop_first()));
            assert(spec_print(ev[0]) + b1 =~= spec_print_elems(ev) + seq![0x5du8] + t);
        }
        lemma_print_first(pv[0]);
        lemma_print_first(ev[0]);
        assert(a1.len() > 0 && (a1[0] == 0x2c || a1[0] == 0x5d));
        assert(b1.len() > 0 && (b1[0] == 0x2c || b1[0] == 0x5d));
        lemma_print_unique(pv[0], ev[0], a1, b1);
        if pv.len() == 1 {
            if x[0] == 0x5d {
                // the array closes here, so it has exactly this element
                assert(b1[0] == 0x5d);
                assert(ev.len() == 1);
                assert(pv =~= ev);
                assert(pv =~= ev.take(1));
                lemma_concat_cancel(seq![0x5du8], t, seq![0x5du8], t);
            } else {
                assert(b1[0] == 0x2c);
                assert(ev.len() > 1);
                assert(pv =~= ev.take(1));
                assert(ev.skip(1) =~= ev.drop_first());
                assert(seq![0x2cu8] + x.drop_first() =~= x);
                assert(seq![0x2cu8] + (spec_print_elems(ev.drop_first()) + seq![0x5du8] + t)
                    =~= b1);
                lemma_concat_cancel(seq![0x2cu8], x.drop_first(), seq![0x2cu8],
                    spec_print_elems(ev.drop_first()) + seq![0x5du8] + t);
            }
        } else {
            assert(a1[0] == 0x2c);
            assert(b1[0] == 0x2c);
            assert(ev.len() > 1);
            assert(seq![0x2cu8] + (spec_print_elems(pv.drop_first()) + x) =~= a1);
            assert(seq![0x2cu8] + (spec_print_elems(ev.drop_first()) + seq![0x5du8] + t) =~= b1);
            lemma_concat_cancel(seq![0x2cu8], spec_print_elems(pv.drop_first()) + x,
                seq![0x2cu8], spec_print_elems(ev.drop_first()) + seq![0x5du8] + t);
            lemma_elems_progress(ev.drop_first(), pv.drop_first(), x, t);
            assert forall|k: int| 0 <= k < pv.len() implies pv[k] == ev.take(
                pv.len() as int,
            )[k] by {
                if k > 0 {
                    assert(pv.drop_first()[k - 1] == ev.drop_first().take(pv.len() - 1)[k - 1]);
                }
            }
            assert(pv =~= ev.take(pv.len() as int));
            if x[0] == 0x2c {
                assert(ev.drop_first().skip(pv.len() - 1) =~= ev.skip(pv.len() as int));
            }
        }
    }
}

/// While scanning a printed object body, the fields already read are a
/// prefix of the object, and the next bytes are forced.
#[verifier::rlimit(100)]
#[verifier::spinoff_prover]
proof fn lemma_fields_progress(fv: Seq<(Seq<u8>, JsonV)>, pf: Seq<(Seq<u8>, JsonV)>, x: Seq<u8>, t: Seq<u8>)
    requires
        spec_print_fields(pf) + x == spec_print_fields(fv) + seq![0x7du8] + t,
        x.len() > 0,
        x[0] == 0x2c || x[0] == 0x7d,
    ensures
        pf.len() <= fv.len(),
        pf == fv.take(pf.len() as int),
        x[0] == 0x7d ==> pf == fv && x == seq![0x7du8] + t,
        x[0] == 0x2c ==> pf.len() < fv.len() && x.drop_first() == spec_print_fields(
            fv.skip(pf.len() as int),
        ) + seq![0x7du8] + t,
    decreases fv, 1int,
{
    if pf.len() == 0 {
        assert(spec_print_fields(pf) == Seq::<u8>::empty());
        assert(x =~= spec_print_fields(fv) + seq![0x7du8] + t);
        if fv.len() == 0 {
            assert(spec_print_fields(fv) == Seq::<u8>::empty());
            assert(x =~= seq![0x7du8] + t);
            assert(x[0] == 0x7d);
            assert(pf =~= fv.take(0));
        } else {
            if fv.len() == 1 {
                assert(spec_print_fields(fv) == spec_print_str(fv[0].0) + seq![0x3au8]
                    + spec_print(fv[0].1));
            } else {
                assert(spec_print_fields(fv) == spec_print_str(fv[0].0) + seq![0x3au8]
                    + spec_print(fv[0].1) + seq![0x2cu8] + spec_print_fields(fv.drop_first()));
            }
            assert(x[0] == spec_print_str(fv[0].0)[0]);
            assert(x[0] == 0x22);
            assert(false);
        }
    } else if fv.len() == 0 {
        if pf.len() == 1 {
            assert(spec_print_fields(pf) == spec_print_str(pf[0].0) + seq![0x3au8] + spec_print(
                pf[0].1));
        } else {
            assert(spec_print_fields(pf) == spec_print_str(pf[0].0) + seq![0x3au8] + spec_print(
                pf[0].1) + seq![0x2cu8] + spec_print_fields(pf.drop_first()));
        }
        assert(spec_print_fields(fv) == Seq::<u8>::empty());
        let w = spec_print_fields(pf) + x;
        assert(w[0] == spec_print_str(pf[0].0)[0]);
        assert(w[0] == (seq![0x7du8] + t)[0]);
        assert(false);
    } else {
        let k1 = pf[0].0;
        let w1 = pf[0].1;
        let k2 = fv[0].0;
        let w2 = fv[0].1;
        let a1 = if pf.len() == 1 {
            x
        } else {
            seq![0x2cu8] + spec_print_fields(pf.drop_first()) + x
        };
        let b1 = if fv.len() == 1 {
            seq![0x7du8] + t
        } else {
            seq![0x2cu8] + spec_print_fields(fv.drop_first()) + seq![0x7du8] + t
        };
        let r1 = seq![0x3au8] + spec_print(w1) + a1;
        let r2 = seq![0x3au8] + spec_print(w2) + b1;
        if pf.len() == 1 {
            assert(spec_print_fields(pf) == spec_print_str(k1) + seq![0x3au8] + spec_print(w1));
        } else {
            assert(spec_print_fields(pf) == spec_print_str(k1) + seq![0x3au8] + spec_print(w1)
                + seq![0x2cu8] + spec_print_fields(pf.drop_first()));
        }
        if fv.len() == 1 {
            assert(spec_print_fields(fv) == spec_print_str(k2) + seq![0x3au8] + spec_print(w2));
        } else {
            assert(spec_print_fields(fv) == spec_print_str(k2) + seq![0x3au8] + spec_print(w2)
                + seq![0x2cu8] + spec_print_fields(fv.drop_first()));
        }
        assert(seq![0x22u8] + (spec_esc(k1) + seq![0x22u8] + r1) =~= spec_print_fields(pf) + x);
        assert(seq![0x22u8] + (spec_esc(k2) + seq![0x22u8] + r2) =~= spec_print_fields(fv)
            + seq![0x7du8] + t);
        lemma_concat_cancel(seq![0x22u8], spec_esc(k1) + seq![0x22u8] + r1, seq![0x22u8],
            spec_esc(k2) + seq![0x22u8] + r2);
        lemma_str_unique(k1, k2, r1, r2);
        assert(seq![0x3au8] + (spec_print(w1) + a1) =~= r1);
        assert(seq![0x3au8] + (spec_print(w2) + b1) =~= r2);
        lemma_concat_cancel(seq![0x3au8], spec_print(w1) + a1, seq![0x3au8], spec_print(w2)
            + b1);
        assert(decreases_to!(fv => fv[0]));
        assert(decreases_to!(fv[0] => fv[0].1));
        lemma_print_unique(w1, w2, a1, b1);
        if pf.len() == 1 {
            if x[0] == 0x7d {
                assert(b1[0] == 0x7d);
                assert(fv.len() == 1);
                assert(pf =~= fv);
                assert(pf =~= fv.take(1));
            } else {
                assert(b1[0] == 0x2c);
                assert(fv.len() > 1);
                assert(pf =~= fv.take(1));
                assert(fv.skip(1) =~= fv.drop_first());
                assert(seq![0x2cu8] + x.drop_first() =~= x);
                assert(seq![0x2cu8] + (spec_print_fields(fv.drop_first()) + seq![0x7du8] + t)
                    =~= b1);
                lemma_concat_cancel(seq![0x2cu8], x.drop_first(), seq![0x2cu8],
                    spec_print_fields(fv.drop_first()) + seq![0x7du8] + t);
            }
        } else {
            assert(a1[0] == 0x2c);
            assert(b1[0] == 0x2c);
            assert(fv.len() > 1);
            assert(seq![0x2cu8] + (spec_print_fields(pf.drop_first()) + x) =~= a1);
            assert(seq![0x2cu8] + (spec_print_fields(fv.drop_first()) + seq![0x7du8] + t)
                =~= b1);
            lemma_concat_cancel(seq![0x2cu8], spec_print_fields(pf.drop_first()) + x,
                seq![0x2cu8], spec_print_fields(fv.drop_first()) + seq![0x7du8] + t);
            lemma_fields_progress(fv.drop_first(), pf.drop_first(), x, t);
            assert forall|k: int| 0 <= k < pf.len() implies pf[k] == fv.take(
                pf.len() as int,
            )[k] by {
                if k > 0 {
                    assert(pf.drop_first()[k - 1] == fv.drop_first().take(pf.len() - 1)[k - 1]);
                }
            }
            assert(pf =~= fv.take(pf.len() as int));
            if x[0] == 0x2c {
                assert(fv.drop_first().skip(pf.len() - 1) =~= fv.skip(pf.len() as int));
            }
        }
    }
}

/// A printed document followed by a non-digit delimiter is determined by
/// the bytes: printing is injective even with arbitrary trailers.
pub proof fn lemma_print_unique(v1: JsonV, v2: JsonV, t1: Seq<u8>, t2: Seq<u8>)
    requires
        spec_print(v1) + t1 == spec_print(v2) + t2,
        v1 is Int ==> t1.len() == 0 || !is_digit(t1[0]),
        v2 is Int ==> t2.len() == 0 || !is_digit(t2[0]),
    ensures
        v1 == v2,
        t1 == t2,
    decreases v2, 0int,
{
    lemma_print_first(v1);
    lemma_print_first(v2);
    let w = spec_print(v1) + t1;
    assert(spec_print(v1)[0] == w[0]);
    assert(spec_print(v2)[0] == w[0]);
    match (v1, v2) {
        (JsonV::Null, JsonV::Null) => {
            lemma_concat_cancel(spec_print(v1), t1, spec_print(v2), t2);
        }
        (JsonV::Bool(b1), JsonV::Bool(b2)) => {
            assert(b1 == b2);
            lemma_concat_cancel(spec_print(v1), t1, spec_print(v2), t2);
        }
        (JsonV::Int(n1), JsonV::Int(n2)) => {
            lemma_digits_unique(n1, n2, t1, t2);
        }
        (JsonV::Str(s1), JsonV::Str(s2)) => {
            assert(seq![0x22u8] + (spec_esc(s1) + seq![0x22u8] + t1) =~= spec_print(v1) + t1);
            assert(seq![0x22u8] + (spec_esc(s2) + seq![0x22u8] + t2) =~= spec_print(v2) + t2);
            lemma_concat_cancel(seq![0x22u8], spec_esc(s1) + seq![0x22u8] + t1, seq![0x22u8],
                spec_esc(s2) + seq![0x22u8] + t2);
            lemma_str_unique(s1, s2, t1, t2);
        }
        (JsonV::Arr(e1), JsonV::Arr(e2)) => {
            assert(seq![0x5bu8] + (spec_print_elems(e1) + (seq![0x5du8] + t1)) =~= spec_print(
                v1) + t1);
            assert(seq![0x5bu8] + (spec_print_elems(e2) + (seq![0x5du8] + t2)) =~= spec_print(
                v2) + t2);
            lemma_concat_cancel(seq![0x5bu8], spec_print_elems(e1) + (seq![0x5du8] + t1),
                seq![0x5bu8], spec_print_elems(e2) + (seq![0x5du8] + t2));
            assert(spec_print_elems(e1) + (seq![0x5du8] + t1) =~= spec_print_elems(e1)
                + seq![0x5du8] + t1);
            assert(spec_print_elems(e2) + (seq![0x5du8] + t2) =~= spec_print_elems(e2)
                + seq![0x5du8] + t2);
            lemma_elems_progress(e2, e1, seq![0x5du8] + t1, t2);
            assert((seq![0x5du8] + t1)[0] == 0x5d);
            lemma_concat_cancel(seq![0x5du8], t1, seq![0x5du8], t2);
        }
        (JsonV::Obj(f1), JsonV::Obj(f2)) => {
            assert(seq![0x7bu8] + (spec_print_fields(f1) + (seq![0x7du8] + t1)) =~= spec_print(
                v1) + t1);
            assert(seq![0x7bu8] + (spec_print_fields(f2) + (seq![0x7du8] + t2)) =~= spec_print(
                v2) + t2);
            lemma_concat_cancel(seq![0x7bu8], spec_print_fields(f1) + (seq![0x7du8] + t1),
                seq![0x7bu8], spec_print_fields(f2) + (seq![0x7du8] + t2));
            assert(spec_print_fields(f1) + (seq![0x7du8] + t1) =~= spec_print_fields(f1)
                + seq![0x7du8] + t1);
            assert(spec_print_fields(f2) + (seq![0x7du8] + t2) =~= spec_print_fields(f2)
                + seq![0x7du8] + t2);
            lemma_fields_progress(f2, f1, seq![0x7du8] + t1, t2);
            assert((seq![0x7du8] + t1)[0] == 0x7d);
            lemma_concat_cancel(seq![0x7du8], t1, seq![0x7du8], t2);
        }
        _ => {
            assert(false);
        }
    }
}

/// `spec_print(elems)` splits at any interior element boundary.
proof fn lemma_print_elems_split(ev: Seq<JsonV>, m: int)
    requires
        0 < m < ev.len(),
    ensures
        spec_print_elems(ev) == spec_print_elems(ev.take(m)) + seq![0x2cu8] + spec_print_elems(
            ev.skip(m),
        ),
    decreases m,
{
    assert(spec_print_elems(ev) == spec_print(ev[0]) + seq![0x2cu8] + spec_print_elems(
        ev.drop_first()));
    if m == 1 {
        assert(ev.take(1)[0] == ev[0]);
        assert(spec_print_elems(ev.take(1)) == spec_print(ev.take(1)[0]));
        assert(ev.skip(1) =~= ev.drop_first());
    } else {
        lemma_print_elems_split(ev.drop_first(), m - 1);
        assert(ev.drop_first().take(m - 1) =~= ev.take(m).drop_first());
        assert(ev.drop_first().skip(m - 1) =~= ev.skip(m));
        assert(ev.take(m)[0] == ev[0]);
        assert(ev.take(m).len() == m >= 2);
        assert(spec_print_elems(ev.take(m)) == spec_print(ev[0]) + seq![0x2cu8]
            + spec_print_elems(ev.take(m).drop_first()));
        assert(spec_print_elems(ev) =~= spec_print_elems(ev.take(m)) + seq![0x2cu8]
            + spec_print_elems(ev.skip(m)));
    }
}

/// `spec_print_fields(fields)` splits at any interior field boundary.
proof fn lemma_print_fields_split(fv: Seq<(Seq<u8>, JsonV)>, m: int)
    requires
        0 < m < fv.len(),
    ensures
        spec_print_fields(fv) == spec_print_fields(fv.take(m)) + seq![0x2cu8]
            + spec_print_fields(fv.skip(m)),
    decreases m,
{
    assert(spec_print_fields(fv) == spec_print_str(fv[0].0) + seq![0x3au8] + spec_print(fv[0].1)
        + seq![0x2cu8] + spec_print_fields(fv.drop_first()));
    if m == 1 {
        assert(fv.take(1)[0] == fv[0]);
        assert(spec_print_fields(fv.take(1)) == spec_print_str(fv[0].0) + seq![0x3au8]
            + spec_print(fv[0].1));
        assert(fv.skip(1) =~= fv.drop_first());
    } else {
        lemma_print_fields_split(fv.drop_first(), m - 1);
        assert(fv.drop_first().take(m - 1) =~= fv.take(m).drop_first());
        assert(fv.drop_first().skip(m - 1) =~= fv.skip(m));
        assert(fv.take(m)[0] == fv[0]);
        assert(fv.take(m).len() == m >= 2);
        assert(spec_print_fields(fv.take(m)) == spec_print_str(fv[0].0) + seq![0x3au8]
            + spec_print(fv[0].1) + seq![0x2cu8] + spec_print_fields(fv.take(m).drop_first()));
        assert(spec_print_fields(fv) =~= spec_print_fields(fv.take(m)) + seq![0x2cu8]
            + spec_print_fields(fv.skip(m)));
    }
}

/// A subrange splits at any interior point.
proof fn lemma_subrange_concat(s: Seq<u8>, a: int, m: int, b: int)
    requires
        0 <= a <= m <= b <= s.len(),
    ensures
        s.subrange(a, b) == s.subrange(a, m) + s.subrange(m, b),
{
    assert(s.subrange(a, b) =~= s.subrange(a, m) + s.subrange(m, b));
}

/// The canonical print of `v` occupies the bytes of `s` starting at `i`.
pub open spec fn print_at(s: Seq<u8>, i: int, v: JsonV) -> bool {
    0 <= i && i + spec_print(v).len() <= s.len() && s.subrange(
        i,
        i + spec_print(v).len() as int,
    ) == spec_print(v)
}

/// Position `j` does not continue a decimal number.
pub open spec fn delim_at(s: Seq<u8>, j: int) -> bool {
    j >= s.len() || !is_digit(s[j])
}

/// A value whose canonical print sits at `i`, not followed by a digit
/// when the value is itself a number: this is what the parser accepts.
pub open spec fn wants_value(s: Seq<u8>, i: int, v: JsonV) -> bool {
    print_at(s, i, v) && (v is Int ==> delim_at(s, i + spec_print(v).len()))
}

/// A parse result: the print of `v` fills `s[i..j]` exactly.
pub open spec fn parsed_at(s: Seq<u8>, i: int, v: JsonV, j: int) -> bool {
    print_at(s, i, v) && j == i + spec_print(v).len() && (v is Int ==> delim_at(s, j))
}

/// At one position only one document can be parsed.
pub proof fn lemma_parsed_unique(s: Seq<u8>, i: int, v1: JsonV, j1: int, v2: JsonV, j2: int)
    requires
        parsed_at(s, i, v1, j1),
        parsed_at(s, i, v2, j2),
    ensures
        v1 == v2,
        j1 == j2,
{
    let t1 = s.subrange(j1, s.len() as int);
    let t2 = s.subrange(j2, s.len() as int);
    lemma_subrange_concat(s, i, j1, s.len() as int);
    lemma_subrange_concat(s, i, j2, s.len() as int);
    assert(spec_print(v1) + t1 == s.subrange(i, s.len() as int));
    assert(spec_print(v2) + t2 == s.subrange(i, s.len() as int));
    if v1 is Int && t1.len() > 0 {
        assert(t1[0] == s[j1]);
    }
    if v2 is Int && t2.len() > 0 {
        assert(t2[0] == s[j2]);
    }
    lemma_print_unique(v1, v2, t1, t2);
}

/// A string literal whose canonical print sits at `i` in `s`.
pub open spec fn strlit_at(s: Seq<u8>, i: int, sv: Seq<u8>) -> bool {
    0 <= i && i + spec_print_str(sv).len() <= s.len() && s.subrange(
        i,
        i + spec_print_str(sv).len() as int,
    ) == spec_print_str(sv)
}

/// The value of a lower-case hexadecimal digit byte, reversing
/// `hex_digit`.
fn from_hex(b: u8) -> (r: Option<u8>)
    ensures
        r matches Some(n) ==> n < 16 && hex_digit(n) == b,
        r is None ==> forall|n: u8| n < 16 ==> hex_digit(n) != b,
{
    if 0x30 <= b && b <= 0x39 {
        Some(b - 0x30)
    } else if 0x61 <= b && b <= 0x66 {
        Some(b - 0x61 + 10)
    } else {
        None
    }
}

/// Relates the scanner state inside a string literal to the literal
/// being scanned: the bytes consumed so far determine a prefix of the
/// content, and the next bytes are forced.
proof fn lemma_str_state(s: Seq<u8>, i: int, pos: int, accv: Seq<u8>, gsv: Seq<u8>)
    requires
        strlit_at(s, i, gsv),
        i + 1 <= pos <= s.len(),
        s.subrange(i + 1, pos) == spec_esc(accv),
    ensures
        accv.len() <= gsv.len(),
        accv == gsv.take(accv.len() as int),
        pos == i + 1 + spec_esc(accv).len(),
        accv.len() == gsv.len() ==> pos < s.len() && s[pos] == 0x22 && pos + 1 == i
            + spec_print_str(gsv).len(),
        accv.len() < gsv.len() ==> pos + esc_byte(gsv[accv.len() as int]).len() <= s.len()
            && s.subrange(pos, pos + esc_byte(gsv[accv.len() as int]).len() as int) == esc_byte(
            gsv[accv.len() as int],
        ),
{
    let plen = spec_print_str(gsv).len() as int;
    assert(s.subrange(i, i + plen) == spec_print_str(gsv));
    lemma_subrange_concat(s, i, i + 1, i + plen);
    assert(seq![0x22u8] + (spec_esc(gsv) + seq![0x22u8]) =~= spec_print_str(gsv));
    lemma_concat_cancel(seq![0x22u8], spec_esc(gsv) + seq![0x22u8], s.subrange(i, i + 1),
        s.subrange(i + 1, i + plen));
    let t = s.subrange(i + plen, s.len() as int);
    lemma_subrange_concat(s, i + 1, i + plen, s.len() as int);
    let x = s.subrange(pos, s.len() as int);
    lemma_subrange_concat(s, i + 1, pos, s.len() as int);
    assert(spec_esc(accv) + x == s.subrange(i + 1, s.len() as int));
    assert((spec_esc(gsv) + seq![0x22u8]) + t == s.subrange(i + 1, s.len() as int));
    assert(spec_esc(gsv) + seq![0x22u8] + t == (spec_esc(gsv) + seq![0x22u8]) + t);
    lemma_esc_progress(gsv, accv, x, t);
    if accv.len() == gsv.len() {
        assert(x == seq![0x22u8] + t);
        assert(x.len() > 0);
        assert(s[pos] == x[0]);
        assert(pos == i + 1 + spec_esc(accv).len());
        assert(spec_esc(accv) == spec_esc(gsv));
        assert(spec_print_str(gsv).len() == 2 + spec_esc(gsv).len());
    } else {
        let m = accv.len() as int;
        assert(gsv.skip(m).len() > 0);
        assert(gsv.skip(m)[0] == gsv[m]);
        assert(gsv.skip(m).drop_first() =~= gsv.skip(m + 1));
        assert(spec_esc(gsv.skip(m)) == esc_byte(gsv[m]) + spec_esc(gsv.skip(m + 1)));
        let eb = esc_byte(gsv[m]);
        assert(x == spec_esc(gsv.skip(m)) + seq![0x22u8] + t);
        assert forall|k: int| 0 <= k < eb.len() implies s[pos + k] == eb[k] by {
            assert(x[k] == s[pos + k]);
            assert(((esc_byte(gsv[m]) + spec_esc(gsv.skip(m + 1))) + seq![0x22u8] + t)[k]
                == eb[k]);
        }
        assert(x.len() >= eb.len());
        assert(s.subrange(pos, pos + eb.len() as int) =~= eb);
    }
}

/// Parse a JSON string literal whose opening quote stands at `i`.  The
/// accepted form is exactly what the printer emits.
#[verifier::rlimit(100)]
fn parse_string(s: &[u8], i: usize) -> (r: Option<(Vec<u8>, usize)>)
    requires
        i < s@.len(),
        s@[i as int] == 0x22,
    ensures
        r matches Some(p) ==> i < p.1 <= s@.len() && s@.subrange(i as int, p.1 as int)
            == spec_print_str(p.0@),
        forall|sv: Seq<u8>| #[trigger] strlit_at(s@, i as int, sv) ==> r is Some,
{
    let ghost hyp = exists|sv: Seq<u8>| strlit_at(s@, i as int, sv);
    let ghost gsv: Seq<u8> = choose|sv: Seq<u8>| strlit_at(s@, i as int, sv);
    let n = s.len();
    let mut acc: Vec<u8> = Vec::new();
    let mut pos: usize = i + 1;
    proof {
        assert(s@.subrange(i as int + 1, pos as int) =~= Seq::<u8>::empty());
        assert(spec_esc(acc@) == Seq::<u8>::empty());
    }
    loop
        invariant
            n == s@.len(),
            i + 1 <= pos <= n,
            i < s@.len(),
            s@[i as int] == 0x22,
            s@.subrange(i as int + 1, pos as int) == spec_esc(acc@),
            hyp == exists|sv: Seq<u8>| strlit_at(s@, i as int, sv),
            hyp ==> strlit_at(s@, i as int, gsv),
        decreases n - pos,
    {
        let ghost m = acc@.len() as int;
        proof {
            if hyp {
                lemma_str_state(s@, i as int, pos as int, acc@, gsv);
            }
        }
        if pos == n {
            proof {
                if hyp {
                    if m < gsv.len() {
                        assert(esc_byte(gsv[m]).len() > 0);
                    }
                    assert(false);
                }
            }
            return None;
        }
        let b = s[pos];
        let ghost oldacc = acc@;
        let ghost oldpos = pos as int;
        proof {
            if hyp && m < gsv.len() {
                assert(s@[pos as int] == esc_byte(gsv[m])[0]);
            }
        }
        if b == 0x22 {
            proof {
                lemma_subrange_concat(s@, i as int, i as int + 1, pos + 1);
                lemma_subrange_concat(s@, i as int + 1, pos as int, pos + 1);
                assert(s@.subrange(pos as int, pos as int + 1) =~= seq![0x22u8]);
                assert(s@.subrange(i as int, i as int + 1) =~= seq![0x22u8]);
                assert(s@.subrange(i as int, pos as int + 1) =~= seq![0x22u8] + spec_esc(acc@)
                    + seq![0x22u8]);
            }
            return Some((acc, pos + 1));
        } else if b == 0x5c {
            proof {
                if hyp {
                    // a closing quote cannot stand here, so another content
                    // byte follows, escaped with a backslash
                    assert(m < gsv.len());
                    assert(esc_byte(gsv[m])[0] == 0x5c);
                    assert(esc_byte(gsv[m]).len() >= 2);
                    assert(s@[pos as int + 1] == esc_byte(gsv[m])[1]);
                }
            }
            if n - pos < 2 {
                proof {
                    if hyp {
                        assert(false);
                    }
                }
                return None;
            }
            let e = s[pos + 1];
            if e == 0x22 {
                acc.push(0x22);
                pos = pos + 2;
            } else if e == 0x5c {
                acc.push(0x5c);
                pos = pos + 2;
            } else if e == 0x6e {
                acc.push(0x0a);
                pos = pos + 2;
            } else if e == 0x72 {
                acc.push(0x0d);
                pos = pos + 2;
            } else if e == 0x74 {
                acc.push(0x09);
                pos = pos + 2;
            } else if e == 0x75 {
                proof {
                    if hyp {
                        // only the six-byte form escapes with `u`
                        assert(esc_byte(gsv[m]).len() == 6);
                        assert(s@[pos as int + 2] == esc_byte(gsv[m])[2]);
                        assert(s@[pos as int + 3] == esc_byte(gsv[m])[3]);
                        assert(s@[pos as int + 4] == esc_byte(gsv[m])[4]);
                        assert(s@[pos as int + 5] == esc_byte(gsv[m])[5]);
                        assert(gsv[m] < 0x20);
                        assert(gsv[m] / 16 < 16 && gsv[m] % 16 < 16);
                    }
                }
                if n - pos < 6 {
                    proof {
                        if hyp {
                            assert(false);
                        }
                    }
                    return None;
                }
                if s[pos + 2] != 0x30 || s[pos + 3] != 0x30 {
                    proof {
                        if hyp {
                            assert(false);
                        }
                    }
                    return None;
                }
                let h1 = from_hex(s[pos + 4]);
                let h2 = from_hex(s[pos + 5]);
                match (h1, h2) {
                    (Some(a), Some(c)) => {
                        let vb = a * 16 + c;
                        proof {
                            if hyp {
                                lemma_hex_digit_inj(a, gsv[m] / 16);
                                lemma_hex_digit_inj(c, gsv[m] % 16);
                                let gb = gsv[m];
                                assert(gb == (gb / 16) * 16 + gb % 16) by (bit_vector);
                                assert(vb == gsv[m]);
                            }
                        }
                        if vb < 0x20 && vb != 0x0a && vb != 0x0d && vb != 0x09 {
                            proof {
                                assert(vb / 16 == a && vb % 16 == c) by (nonlinear_arith)
                                    requires
                                        a < 16,
                                        c < 16,
                                        vb == a * 16 + c,
                                ;
                            }
                            acc.push(vb);
                            pos = pos + 6;
                        } else {
                            proof {
                                if hyp {
                                    assert(false);
                                }
                            }
                            return None;
                        }
                    }
                    _ => {
                        proof {
                            if hyp {
                                lemma_hex_digit_inj(gsv[m] / 16, gsv[m] / 16);
                                assert(false);
                            }
                        }
                        return None;
                    }
                }
            } else {
                proof {
                    if hyp {
                        assert(false);
                    }
                }
                return None;
            }
        } else if b < 0x20 {
            proof {
                if hyp {
                    assert(m < gsv.len());
                    assert(false);
                }
            }
            return None;
        } else {
            acc.push(b);
            pos = pos + 1;
        }
        proof {
            let nb = acc@.last();
            assert(acc@ =~= oldacc.push(nb));
            lemma_esc_push(oldacc, nb);
            lemma_subrange_concat(s@, i as int + 1, oldpos, pos as int);
            assert(s@.subrange(oldpos, pos as int) =~= esc_byte(nb));
            assert(s@.subrange(i as int + 1, pos as int) =~= spec_esc(acc@));
        }
    }
}

/// The canonical digits of `nv` occupy `s` from `i`, with no digit after.
pub open spec fn num_at(s: Seq<u8>, i: int, nv: u64) -> bool {
    0 <= i && i + spec_digits(nv).len() <= s.len() && s.subrange(
        i,
        i + spec_digits(nv).len() as int,
    ) == spec_digits(nv) && delim_at(s, i + spec_digits(nv).len())
}

/// Parse a decimal integer beginning at `i`.  Strictly canonical: a
/// leading zero is only the number zero itself.
#[verifier::rlimit(100)]
fn parse_number(s: &[u8], i: usize) -> (r: Option<(u64, usize)>)
    requires
        i < s@.len(),
        is_digit(s@[i as int]),
    ensures
        r matches Some(p) ==> i < p.1 <= s@.len() && s@.subrange(i as int, p.1 as int)
            == spec_digits(p.0) && delim_at(s@, p.1 as int),
        forall|nv: u64| #[trigger] num_at(s@, i as int, nv) ==> r is Some,
{
    let n = s.len();
    let b0 = s[i];
    if b0 == 0x30 {
        if i + 1 < n && 0x30 <= s[i + 1] && s[i + 1] <= 0x39 {
            proof {
                assert forall|nv: u64| !num_at(s@, i as int, nv) by {
                    if num_at(s@, i as int, nv) {
                        lemma_digits_shape(nv);
                        let dl = spec_digits(nv).len() as int;
                        assert(s@.subrange(i as int, i as int + dl)[0] == s@[i as int]);
                        assert(spec_digits(nv)[0] == 0x30);
                        assert(spec_digits(nv).len() == 1);
                        assert(!is_digit(s@[i as int + 1]));
                        assert(false);
                    }
                }
            }
            return None;
        }
        proof {
            assert(spec_digits(0u64) =~= seq![0x30u8]);
            assert(s@.subrange(i as int, i as int + 1) =~= seq![0x30u8]);
        }
        return Some((0, i + 1));
    }
    let mut pos: usize = i + 1;
    let mut m: u64 = (b0 - 0x30) as u64;
    proof {
        assert(s@.subrange(i as int, pos as int) =~= seq![b0]);
        assert(seq![b0].drop_last() =~= Seq::<u8>::empty());
        assert(spec_digits_val(Seq::<u8>::empty()) == 0);
        assert(spec_digits_val(seq![b0]) == b0 - 0x30);
    }
    while pos < n && 0x30 <= s[pos] && s[pos] <= 0x39
        invariant
            n == s@.len(),
            i < pos <= n,
            i < s@.len(),
            is_digit(s@[i as int]),
            s@[i as int] == b0,
            b0 != 0x30,
            forall|k: int| i <= k < pos ==> is_digit(#[trigger] s@[k]),
            m == spec_digits_val(s@.subrange(i as int, pos as int)),
        decreases n - pos,
    {
        let d8 = s[pos];
        let d = (d8 - 0x30) as u64;
        let ghost ds = s@.subrange(i as int, pos as int);
        if m > (u64::MAX - d) / 10 {
            proof {
                assert forall|nv: u64| !num_at(s@, i as int, nv) by {
                    if num_at(s@, i as int, nv) {
                        lemma_digits_shape(nv);
                        lemma_digits_val(nv);
                        let dn = spec_digits(nv);
                        let dl = dn.len() as int;
                        // the scanned digits are a proper prefix of the
                        // printed run, since a digit still follows
                        if pos > i + dl {
                            assert(is_digit(s@[i + dl]));
                            assert(false);
                        }
                        if pos == i + dl {
                            assert(!is_digit(s@[pos as int]));
                            assert(false);
                        }
                        let k = pos - i;
                        assert forall|q: int| 0 <= q < k implies ds[q] == dn.take(k)[q] by {
                            assert(s@.subrange(i as int, i + dl)[q] == s@[i + q]);
                            assert(ds[q] == s@[i + q]);
                        }
                        assert(ds =~= dn.take(k));
                        assert(dn.take(k + 1).drop_last() =~= dn.take(k));
                        assert(dn.take(k + 1).last() == dn[k]);
                        assert(dn[k] == s@.subrange(i as int, i + dl)[k]);
                        assert(dn[k] == s@[pos as int]);
                        assert(spec_digits_val(dn.take(k + 1)) == m * 10 + d);
                        lemma_digits_val_prefix(dn, k + 1);
                        assert(m * 10 + d <= nv);
                        assert(m * 10 + d > u64::MAX) by (nonlinear_arith)
                            requires
                                m > (u64::MAX - d) / 10,
                                d <= 9,
                                m >= 0,
                        ;
                        assert(false);
                    }
                }
            }
            return None;
        }
        proof {
            assert(m * 10 + d <= u64::MAX) by (nonlinear_arith)
                requires
                    m <= (u64::MAX - d) / 10,
                    d <= 9,
                    m >= 0,
            ;
            assert(s@.subrange(i as int, pos as int + 1).drop_last() =~= ds);
            assert(s@.subrange(i as int, pos as int + 1).last() == s@[pos as int]);
        }
        m = m * 10 + d;
        pos = pos + 1;
    }
    proof {
        let ds = s@.subrange(i as int, pos as int);
        assert(ds[0] == s@[i as int]);
        lemma_val_digits(ds);
        assert(spec_digits(m) == ds);
        assert(delim_at(s@, pos as int));
    }
    Some((m, pos))
}

/// One string literal position holds only one content.
pub proof fn lemma_strlit_unique(s: Seq<u8>, i: int, sv1: Seq<u8>, sv2: Seq<u8>)
    requires
        strlit_at(s, i, sv1),
        strlit_at(s, i, sv2),
    ensures
        sv1 == sv2,
{
    let l1 = spec_print_str(sv1).len() as int;
    let l2 = spec_print_str(sv2).len() as int;
    let t1 = s.subrange(i + l1, s.len() as int);
    let t2 = s.subrange(i + l2, s.len() as int);
    lemma_subrange_concat(s, i, i + l1, s.len() as int);
    lemma_subrange_concat(s, i, i + l2, s.len() as int);
    assert(spec_print_str(sv1) + t1 == s.subrange(i, s.len() as int));
    assert(spec_print_str(sv2) + t2 == s.subrange(i, s.len() as int));
    assert(seq![0x22u8] + (spec_esc(sv1) + seq![0x22u8] + t1) =~= spec_print_str(sv1) + t1);
    assert(seq![0x22u8] + (spec_esc(sv2) + seq![0x22u8] + t2) =~= spec_print_str(sv2) + t2);
    lemma_concat_cancel(seq![0x22u8], spec_esc(sv1) + seq![0x22u8] + t1, seq![0x22u8],
        spec_esc(sv2) + seq![0x22u8] + t2);
    lemma_str_unique(sv1, sv2, t1, t2);
}

/// The views of an element vector extend pointwise.
pub proof fn lemma_view_elems_snoc(s: Seq<Json>, x: Json)
    ensures
        view_elems(s.push(x)) == view_elems(s).push(x@),
{
    broadcast use {lemma_view_elems_len, lemma_view_elems_index};

    assert forall|k: int| 0 <= k < s.len() + 1 implies view_elems(s.push(x))[k] == view_elems(
        s,
    ).push(x@)[k] by {
        assert(view_elems(s.push(x))[k] == s.push(x)[k]@);
        if k < s.len() {
            assert(s.push(x)[k] == s[k]);
        }
    }
    assert(view_elems(s.push(x)) =~= view_elems(s).push(x@));
}

/// The views of a field vector extend pointwise.
pub proof fn lemma_view_fields_snoc(s: Seq<(Vec<u8>, Json)>, k0: Vec<u8>, x: Json)
    ensures
        view_fields(s.push((k0, x))) == view_fields(s).push((k0@, x@)),
{
    broadcast use {lemma_view_fields_len, lemma_view_fields_index};

    assert forall|k: int| 0 <= k < s.len() + 1 implies view_fields(s.push((k0, x)))[k]
        == view_fields(s).push((k0@, x@))[k] by {
        assert(view_fields(s.push((k0, x)))[k] == (s.push((k0, x))[k].0@, s.push((k0, x))[k].1@));
        if k < s.len() {
            assert(s.push((k0, x))[k] == s[k]);
        }
    }
    assert(view_fields(s.push((k0, x))) =~= view_fields(s).push((k0@, x@)));
}

/// Scanner state inside a printed array: the elements read so far are a
/// prefix of the array, the next element's print follows immediately,
/// and after it stands a comma or the closing bracket.
#[verifier::rlimit(100)]
#[verifier::spinoff_prover]
proof fn lemma_arr_state(s: Seq<u8>, i: int, pos: int, pv: Seq<JsonV>, gv: JsonV)
    requires
        print_at(s, i, gv),
        gv is Arr,
        gv->Arr_0.len() > 0,
        pv.len() < gv->Arr_0.len(),
        pv == gv->Arr_0.take(pv.len() as int),
        i + 1 <= pos <= s.len(),
        s.subrange(i + 1, pos) == spec_print_elems(pv) + (if pv.len() == 0 {
            Seq::<u8>::empty()
        } else {
            seq![0x2cu8]
        }),
    ensures
        pos + spec_print(gv->Arr_0[pv.len() as int]).len() < s.len(),
        wants_value(s, pos, gv->Arr_0[pv.len() as int]),
        parsed_at(s, pos, gv->Arr_0[pv.len() as int], pos + spec_print(
            gv->Arr_0[pv.len() as int],
        ).len()),
        pv.len() + 1 == gv->Arr_0.len() ==> s[pos + spec_print(gv->Arr_0[pv.len() as int]).len()]
            == 0x5d && pos + spec_print(gv->Arr_0[pv.len() as int]).len() + 1 == i + spec_print(
            gv,
        ).len(),
        pv.len() + 1 < gv->Arr_0.len() ==> s[pos + spec_print(gv->Arr_0[pv.len() as int]).len()]
            == 0x2c,
{
    let ev = gv->Arr_0;
    let m = pv.len() as int;
    let plen = spec_print(gv).len() as int;
    let ee = spec_print_elems(ev);
    assert(spec_print(gv) == seq![0x5bu8] + ee + seq![0x5du8]);
    lemma_subrange_concat(s, i, i + 1, i + plen);
    assert(seq![0x5bu8] + (ee + seq![0x5du8]) =~= spec_print(gv));
    lemma_concat_cancel(seq![0x5bu8], ee + seq![0x5du8], s.subrange(i, i + 1), s.subrange(
        i + 1, i + plen));
    // now s.subrange(i+1, i+plen) == ee + seq![0x5d]
    let pr = spec_print(ev[m]);
    let rt: Seq<u8> = if m + 1 < ev.len() {
        seq![0x2cu8] + spec_print_elems(ev.skip(m + 1))
    } else {
        Seq::<u8>::empty()
    };
    let consumed = spec_print_elems(pv) + (if pv.len() == 0 {
        Seq::<u8>::empty()
    } else {
        seq![0x2cu8]
    });
    // ee splits as consumed + pr + rt
    if m == 0 {
        assert(spec_print_elems(pv) == Seq::<u8>::empty());
        assert(consumed =~= Seq::<u8>::empty());
        if ev.len() == 1 {
            assert(ee == spec_print(ev[0]));
            assert(ee =~= consumed + pr + rt);
        } else {
            assert(ee == spec_print(ev[0]) + seq![0x2cu8] + spec_print_elems(ev.drop_first()));
            assert(ev.skip(1) =~= ev.drop_first());
            assert(ee =~= consumed + pr + rt);
        }
    } else {
        lemma_print_elems_split(ev, m);
        assert(pv =~= ev.take(m));
        assert(spec_print_elems(pv) == spec_print_elems(ev.take(m)));
        let skipm = ev.skip(m);
        assert(skipm.len() > 0);
        assert(skipm[0] == ev[m]);
        if skipm.len() == 1 {
            assert(spec_print_elems(skipm) == pr);
        } else {
            assert(skipm.drop_first() =~= ev.skip(m + 1));
            assert(spec_print_elems(skipm) == pr + seq![0x2cu8] + spec_print_elems(
                ev.skip(m + 1)));
        }
        assert(ee =~= consumed + pr + rt);
    }
    // position arithmetic: pos == i + 1 + |consumed|
    assert(s.subrange(i + 1, pos).len() == consumed.len());
    assert(pos == i + 1 + consumed.len());
    // bytes after pos
    lemma_subrange_concat(s, i + 1, pos, i + plen);
    assert(consumed + s.subrange(pos, i + plen) == ee + seq![0x5du8]);
    assert(consumed + (pr + rt + seq![0x5du8]) =~= ee + seq![0x5du8]);
    lemma_concat_cancel(consumed, s.subrange(pos, i + plen), consumed, pr + rt + seq![0x5du8]);
    assert(s.subrange(pos, i + plen) == pr + rt + seq![0x5du8]);
    // the element's print sits at pos
    lemma_subrange_concat(s, pos, pos + pr.len(), i + plen);
    assert((pr + rt + seq![0x5du8]).len() == pr.len() + rt.len() + 1);
    assert(pos + pr.len() < i + plen <= s.len());
    assert(pr + (rt + seq![0x5du8]) =~= pr + rt + seq![0x5du8]);
    lemma_concat_cancel(s.subrange(pos, pos + pr.len() as int), s.subrange(pos + pr.len(),
        i + plen), pr, rt + seq![0x5du8]);
    assert(s.subrange(pos, pos + pr.len() as int) == pr);
    assert(print_at(s, pos, ev[m]));
    let j = pos + pr.len() as int;
    assert(s.subrange(j, i + plen) == rt + seq![0x5du8]);
    assert(s[j] == (rt + seq![0x5du8])[0]);
    if m + 1 < ev.len() {
        assert(s[j] == 0x2c);
    } else {
        assert(rt.len() == 0);
        assert(s[j] == 0x5d);
        assert(j + 1 == i + plen);
    }
    assert(delim_at(s, j));
    assert(wants_value(s, pos, ev[m]));
    assert(parsed_at(s, pos, ev[m], j));
}

/// Scanner state inside a printed object: the fields read so far are a
/// prefix of the object, the next key, colon and value follow, and
/// after them stands a comma or the closing brace.
#[verifier::rlimit(100)]
#[verifier::spinoff_prover]
proof fn lemma_obj_state(s: Seq<u8>, i: int, pos: int, pf: Seq<(Seq<u8>, JsonV)>, gv: JsonV)
    requires
        print_at(s, i, gv),
        gv is Obj,
        gv->Obj_0.len() > 0,
        pf.len() < gv->Obj_0.len(),
        pf == gv->Obj_0.take(pf.len() as int),
        i + 1 <= pos <= s.len(),
        s.subrange(i + 1, pos) == spec_print_fields(pf) + (if pf.len() == 0 {
            Seq::<u8>::empty()
        } else {
            seq![0x2cu8]
        }),
    ensures
        ({
            let fm = gv->Obj_0[pf.len() as int];
            let jk = pos + spec_print_str(fm.0).len();
            let jv = jk + 1 + spec_print(fm.1).len();
            &&& jv < s.len()
            &&& strlit_at(s, pos, fm.0)
            &&& s[jk] == 0x3a
            &&& wants_value(s, jk + 1, fm.1)
            &&& parsed_at(s, jk + 1, fm.1, jv)
            &&& (pf.len() + 1 == gv->Obj_0.len() ==> s[jv] == 0x7d && jv + 1 == i + spec_print(
                gv,
            ).len())
            &&& (pf.len() + 1 < gv->Obj_0.len() ==> s[jv] == 0x2c)
        }),
{
    let fv = gv->Obj_0;
    let m = pf.len() as int;
    let plen = spec_print(gv).len() as int;
    let ff = spec_print_fields(fv);
    assert(spec_print(gv) == seq![0x7bu8] + ff + seq![0x7du8]);
    lemma_subrange_concat(s, i, i + 1, i + plen);
    assert(seq![0x7bu8] + (ff + seq![0x7du8]) =~= spec_print(gv));
    lemma_concat_cancel(seq![0x7bu8], ff + seq![0x7du8], s.subrange(i, i + 1), s.subrange(
        i + 1, i + plen));
    let fm = fv[m];
    let pk = spec_print_str(fm.0);
    let pw = spec_print(fm.1);
    let pr = pk + seq![0x3au8] + pw;
    let rt: Seq<u8> = if m + 1 < fv.len() {
        seq![0x2cu8] + spec_print_fields(fv.skip(m + 1))
    } else {
        Seq::<u8>::empty()
    };
    let consumed = spec_print_fields(pf) + (if pf.len() == 0 {
        Seq::<u8>::empty()
    } else {
        seq![0x2cu8]
    });
    if m == 0 {
        assert(spec_print_fields(pf) == Seq::<u8>::empty());
        assert(consumed =~= Seq::<u8>::empty());
        if fv.len() == 1 {
            assert(ff == pk + seq![0x3au8] + pw);
            assert(ff =~= consumed + pr + rt);
        } else {
            assert(ff == pk + seq![0x3au8] + pw + seq![0x2cu8] + spec_print_fields(
                fv.drop_first()));
            assert(fv.skip(1) =~= fv.drop_first());
            assert(ff =~= consumed + pr + rt);
        }
    } else {
        lemma_print_fields_split(fv, m);
        assert(pf =~= fv.take(m));
        assert(spec_print_fields(pf) == spec_print_fields(fv.take(m)));
        let skipm = fv.skip(m);
        assert(skipm.len() > 0);
        assert(skipm[0] == fv[m]);
        if skipm.len() == 1 {
            assert(spec_print_fields(skipm) == pk + seq![0x3au8] + pw);
        } else {
            assert(skipm.drop_first() =~= fv.skip(m + 1));
            assert(spec_print_fields(skipm) == pk + seq![0x3au8] + pw + seq![0x2cu8]
                + spec_print_fields(fv.skip(m + 1)));
        }
        assert(ff =~= consumed + pr + rt);
    }
    assert(s.subrange(i + 1, pos).len() == consumed.len());
    assert(pos == i + 1 + consumed.len());
    lemma_subrange_concat(s, i + 1, pos, i + plen);
    assert(consumed + s.subrange(pos, i + plen) == ff + seq![0x7du8]);
    assert(consumed + (pr + rt + seq![0x7du8]) =~= ff + seq![0x7du8]);
    lemma_concat_cancel(consumed, s.subrange(pos, i + plen), consumed, pr + rt + seq![0x7du8]);
    assert(s.subrange(pos, i + plen) == pr + rt + seq![0x7du8]);
    let jk = pos + pk.len() as int;
    let jv = jk + 1 + pw.len() as int;
    assert(jv < i + plen <= s.len());
    // the key literal sits at pos
    lemma_subrange_concat(s, pos, jk, i + plen);
    assert(((pk + seq![0x3au8] + pw) + rt + seq![0x7du8]).len() == pk.len() + 1 + pw.len()
        + rt.len() + 1);
    assert(pk + (seq![0x3au8] + pw + rt + seq![0x7du8]) =~= pr + rt + seq![0x7du8]);
    lemma_concat_cancel(s.subrange(pos, jk), s.subrange(jk, i + plen), pk, seq![0x3au8] + pw
        + rt + seq![0x7du8]);
    assert(s.subrange(pos, jk) == pk);
    assert(strlit_at(s, pos, fm.0));
    // the colon
    assert(s[jk] == (seq![0x3au8] + pw + rt + seq![0x7du8])[0]);
    // the value print sits right after the colon
    lemma_subrange_concat(s, jk, jk + 1, i + plen);
    assert(seq![0x3au8] + (pw + rt + seq![0x7du8]) =~= seq![0x3au8] + pw + rt + seq![0x7du8]);
    lemma_concat_cancel(s.subrange(jk, jk + 1), s.subrange(jk + 1, i + plen), seq![0x3au8],
        pw + rt + seq![0x7du8]);
    lemma_subrange_concat(s, jk + 1, jv, i + plen);
    assert(pw + (rt + seq![0x7du8]) =~= pw + rt + seq![0x7du8]);
    lemma_concat_cancel(s.subrange(jk + 1, jv), s.subrange(jv, i + plen), pw, rt
        + seq![0x7du8]);
    assert(s.subrange(jk + 1, jv) == pw);
    assert(print_at(s, jk + 1, fm.1));
    assert(s[jv] == (rt + seq![0x7du8])[0]);
    if m + 1 < fv.len() {
        assert(s[jv] == 0x2c);
    } else {
        assert(rt.len() == 0);
        assert(s[jv] == 0x7d);
        assert(jv + 1 == i + plen);
    }
    assert(delim_at(s, jv));
    assert(wants_value(s, jk + 1, fm.1));
    assert(parsed_at(s, jk + 1, fm.1, jv));
}

/// Parse one canonical JSON document beginning at `i`: exactly the
/// documents the printer emits are accepted, and each is recovered
/// exactly.
#[verifier::rlimit(100)]
#[verifier::spinoff_prover]
pub fn parse_value(s: &[u8], i: usize) -> (r: Option<(Json, usize)>)
    requires
        i <= s@.len(),
    ensures
        r matches Some(p) ==> i < p.1 <= s@.len() && parsed_at(s@, i as int, p.0@, p.1 as int),
        forall|v: JsonV| #[trigger] wants_value(s@, i as int, v) ==> r is Some,
    decreases s@.len() - i,
{
    let n = s.len();
    if i == n {
        proof {
            assert forall|v: JsonV| !wants_value(s@, i as int, v) by {
                if wants_value(s@, i as int, v) {
                    lemma_print_first(v);
                    assert(false);
                }
            }
        }
        return None;
    }
    let b = s[i];
    proof {
        assert forall|v: JsonV| wants_value(s@, i as int, v) implies spec_print(v)[0] == s@[
            i as int
        ] by {
            lemma_print_first(v);
            assert(s@.subrange(i as int, i as int + spec_print(v).len() as int)[0] == s@[
                i as int
            ]);
        }
    }
    if b == 0x6e {
        if n - i >= 4 && s[i + 1] == 0x75 && s[i + 2] == 0x6c && s[i + 3] == 0x6c {
            proof {
                assert(s@.subrange(i as int, i as int + 4) =~= spec_print(JsonV::Null));
            }
            return Some((Json::Null, i + 4));
        }
        proof {
            assert forall|v: JsonV| !wants_value(s@, i as int, v) by {
                if wants_value(s@, i as int, v) {
                    lemma_print_first(v);
                    assert(v is Null);
                    let sub = s@.subrange(i as int, i as int + 4);
                    assert(sub == spec_print(v));
                    assert(s@[i as int + 1] == sub[1] && s@[i as int + 2] == sub[2] && s@[
                        i as int + 3] == sub[3]);
                    assert(false);
                }
            }
        }
        return None;
    } else if b == 0x74 {
        if n - i >= 4 && s[i + 1] == 0x72 && s[i + 2] == 0x75 && s[i + 3] == 0x65 {
            proof {
                assert(s@.subrange(i as int, i as int + 4) =~= spec_print(JsonV::Bool(true)));
            }
            return Some((Json::Bool(true), i + 4));
        }
        proof {
            assert forall|v: JsonV| !wants_value(s@, i as int, v) by {
                if wants_value(s@, i as int, v) {
                    lemma_print_first(v);
                    assert(v matches JsonV::Bool(bb) && bb);
                    let sub = s@.subrange(i as int, i as int + 4);
                    assert(sub == spec_print(v));
                    assert(s@[i as int + 1] == sub[1] && s@[i as int + 2] == sub[2] && s@[
                        i as int + 3] == sub[3]);
                    assert(false);
                }
            }
        }
        return None;
    } else if b == 0x66 {
        if n - i >= 5 && s[i + 1] == 0x61 && s[i + 2] == 0x6c && s[i + 3] == 0x73 && s[i + 4]
            == 0x65 {
            proof {
                assert(s@.subrange(i as int, i as int + 5) =~= spec_print(JsonV::Bool(false)));
            }
            return Some((Json::Bool(false), i + 5));
        }
        proof {
            assert forall|v: JsonV| !wants_value(s@, i as int, v) by {
                if wants_value(s@, i as int, v) {
                    lemma_print_first(v);
                    assert(v matches JsonV::Bool(bb) && !bb);
                    let sub = s@.subrange(i as int, i as int + 5);
                    assert(sub == spec_print(v));
                    assert(s@[i as int + 1] == sub[1] && s@[i as int + 2] == sub[2] && s@[
                        i as int + 3] == sub[3] && s@[i as int + 4] == sub[4]);
                    assert(false);
                }
            }
        }
        return None;
    } else if b == 0x22 {
        let res = parse_string(s, i);
        match res {
            Some((content, j)) => {
                proof {
                    assert(spec_print(JsonV::Str(content@)) == spec_print_str(content@));
                }
                return Some((Json::Str(content), j));
            }
            None => {
                proof {
                    assert forall|v: JsonV| !wants_value(s@, i as int, v) by {
                        if wants_value(s@, i as int, v) {
                            lemma_print_first(v);
                            assert(v is Str);
                            assert(strlit_at(s@, i as int, v->Str_0));
                            assert(false);
                        }
                    }
                }
                return None;
            }
        }
    } else if 0x30 <= b && b <= 0x39 {
        let res = parse_number(s, i);
        match res {
            Some((nv, j)) => {
                proof {
                    assert(spec_print(JsonV::Int(nv)) == spec_digits(nv));
                }
                return Some((Json::Int(nv), j));
            }
            None => {
                proof {
                    assert forall|v: JsonV| !wants_value(s@, i as int, v) by {
                        if wants_value(s@, i as int, v) {
                            lemma_print_first(v);
                            assert(v is Int);
                            assert(num_at(s@, i as int, v->Int_0));
                            assert(false);
                        }
                    }
                }
                return None;
            }
        }
    } else if b == 0x5b {
        let ghost hyp = exists|v: JsonV| wants_value(s@, i as int, v);
        let ghost gv: JsonV = choose|v: JsonV| wants_value(s@, i as int, v);
        proof {
            if hyp {
                lemma_print_first(gv);
                assert(gv is Arr);
            }
        }
        let ghost gev: Seq<JsonV> = if gv is Arr {
            gv->Arr_0
        } else {
            Seq::empty()
        };
        let mut items: Vec<Json> = Vec::new();
        let mut pos: usize = i + 1;
        if pos < n && s[pos] == 0x5d {
            proof {
                assert(view_elems(items@) =~= Seq::<JsonV>::empty());
                assert(spec_print_elems(view_elems(items@)) == Seq::<u8>::empty());
                assert(s@.subrange(i as int, i as int + 2) =~= seq![0x5bu8, 0x5du8]);
                assert(spec_print(JsonV::Arr(view_elems(items@))) =~= seq![0x5bu8, 0x5du8]);
            }
            return Some((Json::Arr(items), pos + 1));
        }
        proof {
            if hyp && gev.len() == 0 {
                assert(spec_print_elems(gev) == Seq::<u8>::empty());
                assert(spec_print(gv) =~= seq![0x5bu8, 0x5du8]);
                assert(s@.subrange(i as int, i as int + 2) == spec_print(gv));
                assert(s@[i as int + 1] == spec_print(gv)[1]);
                assert(false);
            }
            assert(s@.subrange(i as int + 1, pos as int) =~= Seq::<u8>::empty());
        }
        loop
            invariant
                n == s@.len(),
                i < n,
                i + 1 <= pos <= n,
                s@[i as int] == 0x5b,
                s@.subrange(i as int + 1, pos as int) == spec_print_elems(view_elems(items@)) + (
                if items@.len() == 0 {
                    Seq::<u8>::empty()
                } else {
                    seq![0x2cu8]
                }),
                hyp == exists|v: JsonV| wants_value(s@, i as int, v),
                hyp ==> wants_value(s@, i as int, gv) && gv is Arr && gev == gv->Arr_0
                    && gev.len() > 0,
                hyp ==> view_elems(items@) == gev.take(items@.len() as int) && items@.len()
                    < gev.len(),
            decreases n - pos,
        {
            let ghost m = items@.len() as int;
            proof {
                if hyp {
                    lemma_arr_state(s@, i as int, pos as int, view_elems(items@), gv);
                }
            }
            let rv = parse_value(s, pos);
            let (item, p2) = match rv {
                Some(p) => p,
                None => {
                    proof {
                        if hyp {
                            assert(wants_value(s@, pos as int, gev[m]));
                            assert(false);
                        }
                    }
                    return None;
                }
            };
            proof {
                if hyp {
                    lemma_parsed_unique(s@, pos as int, item@, p2 as int, gev[m], pos as int
                        + spec_print(gev[m]).len());
                }
            }
            let ghost olditems = items@;
            let ghost oldpos = pos as int;
            items.push(item);
            pos = p2;
            proof {
                broadcast use {lemma_view_elems_len, lemma_view_elems_index};

                lemma_view_elems_snoc(olditems, item);
                lemma_print_elems_push(view_elems(olditems), item@);
                lemma_subrange_concat(s@, i as int + 1, oldpos, pos as int);
                assert(s@.subrange(oldpos, pos as int) == spec_print(item@));
                if olditems.len() == 0 {
                    assert(view_elems(olditems) =~= Seq::<JsonV>::empty());
                    assert(spec_print_elems(view_elems(olditems)) == Seq::<u8>::empty());
                    assert(spec_print_elems(view_elems(items@)) == spec_print(item@));
                    assert(s@.subrange(i as int + 1, oldpos).len() == 0);
                    assert(s@.subrange(i as int + 1, pos as int) =~= spec_print_elems(
                        view_elems(items@)));
                } else {
                    assert(spec_print_elems(view_elems(items@)) == spec_print_elems(view_elems(
                        olditems)) + seq![0x2cu8] + spec_print(item@));
                    assert(s@.subrange(i as int + 1, oldpos) == spec_print_elems(view_elems(
                        olditems)) + seq![0x2cu8]);
                    assert(s@.subrange(i as int + 1, pos as int) =~= spec_print_elems(
                        view_elems(items@)));
                }
            }
            if pos == n {
                proof {
                    if hyp {
                        assert(false);
                    }
                }
                return None;
            }
            let c = s[pos];
            if c == 0x5d {
                proof {
                    lemma_subrange_concat(s@, i as int, i as int + 1, pos as int + 1);
                    lemma_subrange_concat(s@, i as int + 1, pos as int, pos as int + 1);
                    assert(s@.subrange(pos as int, pos as int + 1) =~= seq![0x5du8]);
                    assert(s@.subrange(i as int, i as int + 1) =~= seq![0x5bu8]);
                    assert(s@.subrange(i as int, pos as int + 1) =~= seq![0x5bu8]
                        + spec_print_elems(view_elems(items@)) + seq![0x5du8]);
                    assert(spec_print(JsonV::Arr(view_elems(items@))) == seq![0x5bu8]
                        + spec_print_elems(view_elems(items@)) + seq![0x5du8]);
                }
                return Some((Json::Arr(items), pos + 1));
            } else if c == 0x2c {
                proof {
                    if hyp {
                        // the array continues: a closing bracket would have
                        // stood here after the final element
                        assert(m + 1 < gev.len());
                        assert(view_elems(items@) =~= gev.take(m + 1));
                    }
                    lemma_subrange_concat(s@, i as int + 1, pos as int, pos as int + 1);
                    assert(s@.subrange(pos as int, pos as int + 1) =~= seq![0x2cu8]);
                }
                pos = pos + 1;
            } else {
                proof {
                    if hyp {
                        assert(false);
                    }
                }
                return None;
            }
        }
    } else if b == 0x7b {
        let ghost hyp = exists|v: JsonV| wants_value(s@, i as int, v);
        let ghost gv: JsonV = choose|v: JsonV| wants_value(s@, i as int, v);
        proof {
            if hyp {
                lemma_print_first(gv);
                assert(gv is Obj);
            }
        }
        let ghost gfv: Seq<(Seq<u8>, JsonV)> = if gv is Obj {
            gv->Obj_0
        } else {
            Seq::empty()
        };
        let mut fields: Vec<(Vec<u8>, Json)> = Vec::new();
        let mut pos: usize = i + 1;
        if pos < n && s[pos] == 0x7d {
            proof {
                assert(view_fields(fields@) =~= Seq::<(Seq<u8>, JsonV)>::empty());
                assert(spec_print_fields(view_fields(fields@)) == Seq::<u8>::empty());
                assert(s@.subrange(i as int, i as int + 2) =~= seq![0x7bu8, 0x7du8]);
                assert(spec_print(JsonV::Obj(view_fields(fields@))) =~= seq![0x7bu8, 0x7du8]);
            }
            return Some((Json::Obj(fields), pos + 1));
        }
        proof {
            if hyp && gfv.len() == 0 {
                assert(spec_print_fields(gfv) == Seq::<u8>::empty());
                assert(spec_print(gv) =~= seq![0x7bu8, 0x7du8]);
                assert(s@.subrange(i as int, i as int + 2) == spec_print(gv));
                assert(s@[i as int + 1] == spec_print(gv)[1]);
                assert(false);
            }
            assert(s@.subrange(i as int + 1, pos as int) =~= Seq::<u8>::empty());
        }
        loop
            invariant
                n == s@.len(),
                i < n,
                i + 1 <= pos <= n,
                s@[i as int] == 0x7b,
                s@.subrange(i as int + 1, pos as int) == spec_print_fields(view_fields(fields@))
                    + (if fields@.len() == 0 {
                    Seq::<u8>::empty()
                } else {
                    seq![0x2cu8]
                }),
                hyp == exists|v: JsonV| wants_value(s@, i as int, v),
                hyp ==> wants_value(s@, i as int, gv) && gv is Obj && gfv == gv->Obj_0
                    && gfv.len() > 0,
                hyp ==> view_fields(fields@) == gfv.take(fields@.len() as int) && fields@.len()
                    < gfv.len(),
            decreases n - pos,
        {
            let ghost m = fields@.len() as int;
            proof {
                if hyp {
                    lemma_obj_state(s@, i as int, pos as int, view_fields(fields@), gv);
                }
            }
            if pos == n || s[pos] != 0x22 {
                proof {
                    if hyp {
                        assert(s@[pos as int] == spec_print_str(gfv[m].0)[0]);
                        assert(false);
                    }
                }
                return None;
            }
            let rk = parse_string(s, pos);
            let (key, p1) = match rk {
                Some(p) => p,
                None => {
                    proof {
                        if hyp {
                            assert(strlit_at(s@, pos as int, gfv[m].0));
                            assert(false);
                        }
                    }
                    return None;
                }
            };
            proof {
                if hyp {
                    assert(strlit_at(s@, pos as int, key@));
                    lemma_strlit_unique(s@, pos as int, key@, gfv[m].0);
                }
            }
            if p1 == n || s[p1] != 0x3a {
                proof {
                    if hyp {
                        assert(false);
                    }
                }
                return None;
            }
            let rv = parse_value(s, p1 + 1);
            let (val, p2) = match rv {
                Some(p) => p,
                None => {
                    proof {
                        if hyp {
                            assert(wants_value(s@, p1 as int + 1, gfv[m].1));
                            assert(false);
                        }
                    }
                    return None;
                }
            };
            proof {
                if hyp {
                    lemma_parsed_unique(s@, p1 as int + 1, val@, p2 as int, gfv[m].1, p1 as int
                        + 1 + spec_print(gfv[m].1).len());
                }
            }
            let ghost oldfields = fields@;
            let ghost oldpos = pos as int;
            let ghost keyv = key@;
            fields.push((key, val));
            pos = p2;
            proof {
                broadcast use {lemma_view_fields_len, lemma_view_fields_index};

                lemma_view_fields_snoc(oldfields, fields@[fields@.len() - 1].0, val);
                assert(fields@[fields@.len() - 1].0@ == keyv);
                assert(view_fields(fields@) == view_fields(oldfields).push((keyv, val@)));
                lemma_print_fields_push(view_fields(oldfields), keyv, val@);
                lemma_subrange_concat(s@, i as int + 1, oldpos, p1 as int);
                lemma_subrange_concat(s@, i as int + 1, p1 as int, p1 as int + 1);
                lemma_subrange_concat(s@, i as int + 1, p1 as int + 1, pos as int);
                assert(s@.subrange(oldpos, p1 as int) == spec_print_str(keyv));
                assert(s@.subrange(p1 as int, p1 as int + 1) =~= seq![0x3au8]);
                assert(s@.subrange(p1 as int + 1, pos as int) == spec_print(val@));
                if oldfields.len() == 0 {
                    assert(view_fields(oldfields) =~= Seq::<(Seq<u8>, JsonV)>::empty());
                    assert(spec_print_fields(view_fields(oldfields)) == Seq::<u8>::empty());
                    assert(spec_print_fields(view_fields(fields@)) == spec_print_str(keyv)
                        + seq![0x3au8] + spec_print(val@));
                    assert(s@.subrange(i as int + 1, oldpos).len() == 0);
                    assert(s@.subrange(i as int + 1, pos as int) =~= spec_print_fields(
                        view_fields(fields@)));
                } else {
                    assert(spec_print_fields(view_fields(fields@)) == spec_print_fields(
                        view_fields(oldfields)) + seq![0x2cu8] + spec_print_str(keyv)
                        + seq![0x3au8] + spec_print(val@));
                    assert(s@.subrange(i as int + 1, oldpos) == spec_print_fields(view_fields(
                        oldfields)) + seq![0x2cu8]);
                    assert(s@.subrange(i as int + 1, pos as int) =~= spec_print_fields(
                        view_fields(fields@)));
                }
            }
            if pos == n {
                proof {
                    if hyp {
                        assert(false);
                    }
                }
                return None;
            }
            let c = s[pos];
            if c == 0x7d {
                proof {
                    lemma_subrange_concat(s@, i as int, i as int + 1, pos as int + 1);
                    lemma_subrange_concat(s@, i as int + 1, pos as int, pos as int + 1);
                    assert(s@.subrange(pos as int, pos as int + 1) =~= seq![0x7du8]);
                    assert(s@.subrange(i as int, i as int + 1) =~= seq![0x7bu8]);
                    assert(s@.subrange(i as int, pos as int + 1) =~= seq![0x7bu8]
                        + spec_print_fields(view_fields(fields@)) + seq![0x7du8]);
                    assert(spec_print(JsonV::Obj(view_fields(fields@))) == seq![0x7bu8]
                        + spec_print_fields(view_fields(fields@)) + seq![0x7du8]);
                }
                return Some((Json::Obj(fields), pos + 1));
            } else if c == 0x2c {
                proof {
                    if hyp {
                        assert(m + 1 < gfv.len());
                        assert(view_fields(fields@) =~= gfv.take(m + 1));
                    }
                    lemma_subrange_concat(s@, i as int + 1, pos as int, pos as int + 1);
                    assert(s@.subrange(pos as int, pos as int + 1) =~= seq![0x2cu8]);
                }
                pos = pos + 1;
            } else {
                proof {
                    if hyp {
                        assert(false);
                    }
                }
                return None;
            }
        }
    } else {
        proof {
            assert forall|v: JsonV| !wants_value(s@, i as int, v) by {
                if wants_value(s@, i as int, v) {
                    lemma_print_first(v);
                    assert(false);
                }
            }
        }
        return None;
    }
}

/// Parse a whole byte vector as one JSON document.
///
/// Whitespace between tokens is accepted and ignored; apart from it the
/// input must be a printed document, and that document is recovered
/// exactly: the inverse of `print_json`.
pub fn parse_json(s: &Vec<u8>) -> (r: Option<Json>)
    ensures
        r matches Some(j) ==> spec_strip(s@) == spec_print(j@),
        forall|v: JsonV| spec_strip(s@) == #[trigger] spec_print(v) ==> (r matches Some(j) && j@
            == v),
{
    let t = strip_ws(s);
    let rv = parse_value(t.as_slice(), 0);
    match rv {
        Some((j, k)) => {
            if k == t.len() {
                proof {
                    assert(t@.subrange(0, t@.len() as int) =~= t@);
                    assert(t@ == spec_print(j@));
                    assert forall|v: JsonV| t@ == #[trigger] spec_print(v) implies j@ == v by {
                        assert(t@.subrange(0, spec_print(v).len() as int) =~= spec_print(v));
                        lemma_parsed_unique(t@, 0, j@, t@.len() as int, v, spec_print(
                            v).len() as int);
                    }
                }
                Some(j)
            } else {
                proof {
                    assert forall|v: JsonV| t@ != #[trigger] spec_print(v) by {
                        if t@ == spec_print(v) {
                            assert(t@.subrange(0, spec_print(v).len() as int) =~= spec_print(
                                v));
                            lemma_parsed_unique(t@, 0, j@, k as int, v, spec_print(
                                v).len() as int);
                        }
                    }
                }
                None
            }
        }
        None => {
            proof {
                assert forall|v: JsonV| t@ != #[trigger] spec_print(v) by {
                    if t@ == spec_print(v) {
                        assert(t@.subrange(0, spec_print(v).len() as int) =~= spec_print(v));
                        assert(wants_value(t@, 0, v));
                    }
                }
            }
            None
        }
    }
}

/// An insignificant byte between JSON tokens.
pub open spec fn ws_byte(b: u8) -> bool {
    b == 0x20 || b == 0x09 || b == 0x0a || b == 0x0d
}

/// The scanner state while removing whitespace: outside string
/// literals, inside one, or inside one right after a backslash.
pub open spec fn strip_step(st: int, b: u8) -> int {
    if st == 0 {
        if b == 0x22 {
            1int
        } else {
            0int
        }
    } else if st == 1 {
        if b == 0x5c {
            2int
        } else if b == 0x22 {
            0int
        } else {
            1int
        }
    } else {
        1int
    }
}

/// The scanner state after a whole run of bytes.
pub open spec fn strip_end(s: Seq<u8>, st: int) -> int
    decreases s.len(),
{
    if s.len() == 0 {
        st
    } else {
        strip_end(s.drop_first(), strip_step(st, s[0]))
    }
}

/// The bytes with whitespace outside string literals removed.
pub open spec fn spec_strip_st(s: Seq<u8>, st: int) -> Seq<u8>
    decreases s.len(),
{
    if s.len() == 0 {
        Seq::empty()
    } else {
        (if st == 0 && ws_byte(s[0]) {
            Seq::empty()
        } else {
            seq![s[0]]
        }) + spec_strip_st(s.drop_first(), strip_step(st, s[0]))
    }
}

/// A document's text with interstitial whitespace removed.
pub open spec fn spec_strip(s: Seq<u8>) -> Seq<u8> {
    spec_strip_st(s, 0)
}

/// Stripping one byte keeps it unless it is whitespace outside a
/// string literal.
pub proof fn lemma_strip_single(b: u8, st: int)
    ensures
        spec_strip_st(seq![b], st) == (if st == 0 && ws_byte(b) {
            Seq::<u8>::empty()
        } else {
            seq![b]
        }),
        strip_end(seq![b], st) == strip_step(st, b),
{
    assert(seq![b].drop_first() =~= Seq::<u8>::empty());
    assert(spec_strip_st(Seq::<u8>::empty(), strip_step(st, b)) == Seq::<u8>::empty());
    assert(strip_end(Seq::<u8>::empty(), strip_step(st, b)) == strip_step(st, b));
    if st == 0 && ws_byte(b) {
        assert(spec_strip_st(seq![b], st) =~= Seq::<u8>::empty());
    } else {
        assert(spec_strip_st(seq![b], st) =~= seq![b]);
    }
}

/// Inside a string literal, a run without quotes or backslashes passes
/// through unchanged and stays inside.
proof fn lemma_strip_instr(s: Seq<u8>)
    requires
        forall|k: int| 0 <= k < s.len() ==> (#[trigger] s[k]) != 0x22 && s[k] != 0x5c,
    ensures
        spec_strip_st(s, 1) == s,
        strip_end(s, 1) == 1,
    decreases s.len(),
{
    if s.len() > 0 {
        lemma_strip_instr(s.drop_first());
        assert(spec_strip_st(s, 1) =~= s);
    }
}

/// Stripping distributes over concatenation, threading the state.
pub proof fn lemma_strip_concat(a: Seq<u8>, b: Seq<u8>, st: int)
    ensures
        spec_strip_st(a + b, st) == spec_strip_st(a, st) + spec_strip_st(b, strip_end(a, st)),
        strip_end(a + b, st) == strip_end(b, strip_end(a, st)),
    decreases a.len(),
{
    if a.len() == 0 {
        assert(a + b =~= b);
        assert(spec_strip_st(a, st) == Seq::<u8>::empty());
        assert(spec_strip_st(a, st) + spec_strip_st(b, st) =~= spec_strip_st(b, st));
    } else {
        assert((a + b)[0] == a[0]);
        assert((a + b).drop_first() =~= a.drop_first() + b);
        lemma_strip_concat(a.drop_first(), b, strip_step(st, a[0]));
        assert(spec_strip_st(a + b, st) =~= spec_strip_st(a, st) + spec_strip_st(b, strip_end(
            a, st)));
    }
}

/// A run of bytes that are neither whitespace, quotes nor backslashes
/// passes through the scanner unchanged, outside string literals.
proof fn lemma_strip_plain(s: Seq<u8>)
    requires
        forall|k: int| 0 <= k < s.len() ==> !ws_byte(#[trigger] s[k]) && s[k] != 0x22 && s[k]
            != 0x5c,
    ensures
        spec_strip_st(s, 0) == s,
        strip_end(s, 0) == 0,
    decreases s.len(),
{
    if s.len() > 0 {
        lemma_strip_plain(s.drop_first());
        assert(spec_strip_st(s, 0) =~= s);
    }
}

/// An escaped string body passes through the scanner unchanged and
/// keeps it inside the literal.
proof fn lemma_strip_esc(sv: Seq<u8>)
    ensures
        spec_strip_st(spec_esc(sv), 1) == spec_esc(sv),
        strip_end(spec_esc(sv), 1) == 1,
    decreases sv.len(),
{
    if sv.len() == 0 {
        assert(spec_esc(sv) == Seq::<u8>::empty());
    } else {
        let e = esc_byte(sv[0]);
        let rest = spec_esc(sv.drop_first());
        assert(spec_esc(sv) == e + rest);
        lemma_strip_esc(sv.drop_first());
        assert(spec_strip_st(e, 1) == e && strip_end(e, 1) == 1) by {
            let b = sv[0];
            if b == 0x22 || b == 0x5c || b == 0x0a || b == 0x0d || b == 0x09 {
                assert(e.len() == 2 && e[0] == 0x5c);
                assert(e =~= seq![e[0]] + seq![e[1]]);
                lemma_strip_concat(seq![e[0]], seq![e[1]], 1);
                lemma_strip_single(e[0], 1);
                lemma_strip_single(e[1], 2);
                assert(spec_strip_st(e, 1) =~= e);
            } else if b < 0x20 {
                assert(e.len() == 6 && e[0] == 0x5c && e[1] == 0x75);
                let tail4 = seq![e[2], e[3], e[4], e[5]];
                assert(e =~= seq![e[0]] + (seq![e[1]] + tail4));
                lemma_strip_concat(seq![e[0]], seq![e[1]] + tail4, 1);
                lemma_strip_single(e[0], 1);
                lemma_strip_concat(seq![e[1]], tail4, 2);
                lemma_strip_single(e[1], 2);
                assert(hex_digit(b / 16) != 0x22 && hex_digit(b / 16) != 0x5c);
                assert(hex_digit(b % 16) != 0x22 && hex_digit(b % 16) != 0x5c);
                assert(forall|k: int| 0 <= k < tail4.len() ==> (#[trigger] tail4[k]) != 0x22
                    && tail4[k] != 0x5c);
                lemma_strip_instr(tail4);
                assert(spec_strip_st(e, 1) =~= e);
            } else {
                assert(e =~= seq![b]);
                assert(b != 0x22 && b != 0x5c);
                lemma_strip_single(b, 1);
                assert(spec_strip_st(e, 1) =~= e);
            }
        }
        lemma_strip_concat(e, rest, 1);
        assert(spec_strip_st(spec_esc(sv), 1) =~= spec_esc(sv));
    }
}

/// A printed string literal passes through the scanner unchanged.
proof fn lemma_strip_str(sv: Seq<u8>)
    ensures
        spec_strip_st(spec_print_str(sv), 0) == spec_print_str(sv),
        strip_end(spec_print_str(sv), 0) == 0,
{
    let q = seq![0x22u8];
    assert(spec_print_str(sv) =~= q + (spec_esc(sv) + q));
    lemma_strip_concat(q, spec_esc(sv) + q, 0);
    lemma_strip_single(0x22, 0);
    lemma_strip_concat(spec_esc(sv), q, 1);
    lemma_strip_esc(sv);
    lemma_strip_single(0x22, 1);
    assert(spec_strip_st(spec_print_str(sv), 0) =~= spec_print_str(sv));
}

/// The canonical print of a document holds no strippable whitespace:
/// stripping leaves it unchanged.
pub proof fn lemma_strip_print(v: JsonV)
    ensures
        spec_strip_st(spec_print(v), 0) == spec_print(v),
        strip_end(spec_print(v), 0) == 0,
    decreases v, 0int,
{
    match v {
        JsonV::Null => {
            lemma_strip_plain(spec_print(v));
        }
        JsonV::Bool(_) => {
            lemma_strip_plain(spec_print(v));
        }
        JsonV::Int(n) => {
            lemma_digits_shape(n);
            assert forall|k: int| 0 <= k < spec_digits(n).len() implies !ws_byte(
                #[trigger] spec_digits(n)[k]) && spec_digits(n)[k] != 0x22 && spec_digits(n)[k]
                != 0x5c by {
                assert(is_digit(spec_digits(n)[k]));
            }
            lemma_strip_plain(spec_digits(n));
        }
        JsonV::Str(sv) => {
            lemma_strip_str(sv);
        }
        JsonV::Arr(elems) => {
            let open = seq![0x5bu8];
            let close = seq![0x5du8];
            let mid = spec_print_elems(elems);
            assert(spec_print(v) =~= open + (mid + close));
            lemma_strip_concat(open, mid + close, 0);
            lemma_strip_single(0x5b, 0);
            lemma_strip_concat(mid, close, 0);
            lemma_strip_elems(elems);
            lemma_strip_single(0x5d, 0);
            assert(spec_strip_st(spec_print(v), 0) =~= spec_print(v));
        }
        JsonV::Obj(fields) => {
            let open = seq![0x7bu8];
            let close = seq![0x7du8];
            let mid = spec_print_fields(fields);
            assert(spec_print(v) =~= open + (mid + close));
            lemma_strip_concat(open, mid + close, 0);
            lemma_strip_single(0x7b, 0);
            lemma_strip_concat(mid, close, 0);
            lemma_strip_fields(fields);
            lemma_strip_single(0x7d, 0);
            assert(spec_strip_st(spec_print(v), 0) =~= spec_print(v));
        }
    }
}

/// Printed array elements hold no strippable whitespace.
proof fn lemma_strip_elems(elems: Seq<JsonV>)
    ensures
        spec_strip_st(spec_print_elems(elems), 0) == spec_print_elems(elems),
        strip_end(spec_print_elems(elems), 0) == 0,
    decreases elems, 1int,
{
    if elems.len() == 0 {
    } else if elems.len() == 1 {
        lemma_strip_print(elems[0]);
    } else {
        let head = spec_print(elems[0]);
        let comma = seq![0x2cu8];
        let rest = spec_print_elems(elems.drop_first());
        assert(spec_print_elems(elems) =~= head + (comma + rest));
        lemma_strip_concat(head, comma + rest, 0);
        lemma_strip_print(elems[0]);
        lemma_strip_concat(comma, rest, 0);
        lemma_strip_single(0x2c, 0);
        lemma_strip_elems(elems.drop_first());
        assert(spec_strip_st(spec_print_elems(elems), 0) =~= spec_print_elems(elems));
    }
}

/// Printed object fields hold no strippable whitespace.
proof fn lemma_strip_fields(fields: Seq<(Seq<u8>, JsonV)>)
    ensures
        spec_strip_st(spec_print_fields(fields), 0) == spec_print_fields(fields),
        strip_end(spec_print_fields(fields), 0) == 0,
    decreases fields, 1int,
{
    if fields.len() == 0 {
    } else {
        let key = spec_print_str(fields[0].0);
        let colon = seq![0x3au8];
        let val = spec_print(fields[0].1);
        lemma_strip_str(fields[0].0);
        lemma_strip_single(0x3a, 0);
        lemma_strip_print(fields[0].1);
        if fields.len() == 1 {
            assert(spec_print_fields(fields) =~= key + (colon + val));
            lemma_strip_concat(key, colon + val, 0);
            lemma_strip_concat(colon, val, 0);
            assert(spec_strip_st(spec_print_fields(fields), 0) =~= spec_print_fields(fields));
        } else {
            let comma = seq![0x2cu8];
            let rest = spec_print_fields(fields.drop_first());
            assert(spec_print_fields(fields) =~= key + (colon + (val + (comma + rest))));
            lemma_strip_concat(key, colon + (val + (comma + rest)), 0);
            lemma_strip_concat(colon, val + (comma + rest), 0);
            lemma_strip_concat(val, comma + rest, 0);
            lemma_strip_concat(comma, rest, 0);
            lemma_strip_single(0x2c, 0);
            lemma_strip_fields(fields.drop_first());
            assert(spec_strip_st(spec_print_fields(fields), 0) =~= spec_print_fields(fields));
        }
    }
}

/// Remove whitespace outside string literals.
pub fn strip_ws(s: &Vec<u8>) -> (r: Vec<u8>)
    ensures
        r@ == spec_strip(s@),
{
    let mut out: Vec<u8> = Vec::new();
    let mut st: u8 = 0;
    let mut k: usize = 0;
    proof {
        assert(s@.take(0) =~= Seq::<u8>::empty());
    }
    while k < s.len()
        invariant
            k <= s@.len(),
            out@ == spec_strip_st(s@.take(k as int), 0),
            st <= 2,
            st as int == strip_end(s@.take(k as int), 0),
        decreases s@.len() - k,
    {
        let b = s[k];
        proof {
            assert(s@.take(k as int + 1) =~= s@.take(k as int) + seq![s@[k as int]]);
            lemma_strip_concat(s@.take(k as int), seq![s@[k as int]], 0);
            lemma_strip_single(s@[k as int], strip_end(s@.take(k as int), 0));
        }
        if st == 0 {
            if b == 0x20 || b == 0x09 || b == 0x0a || b == 0x0d {
            } else {
                out.push(b);
                if b == 0x22 {
                    st = 1;
                }
            }
        } else if st == 1 {
            out.push(b);
            if b == 0x5c {
                st = 2;
            } else if b == 0x22 {
                st = 0;
            }
        } else {
            out.push(b);
            st = 1;
        }
        proof {
            assert(out@ =~= spec_strip_st(s@.take(k as int + 1), 0));
        }
        k = k + 1;
    }
    proof {
        assert(s@.take(s@.len() as int) =~= s@);
    }
    out
}

/// The value under the first field with the given key, if any.
pub open spec fn obj_get(fv: Seq<(Seq<u8>, JsonV)>, key: Seq<u8>) -> Option<JsonV>
    decreases fv.len(),
{
    if fv.len() == 0 {
        Option::None
    } else if fv[0].0 == key {
        Option::Some(fv[0].1)
    } else {
        obj_get(fv.drop_first(), key)
    }
}

/// `obj_get` answers with the first field carrying the key.
pub proof fn lemma_obj_get_at(fv: Seq<(Seq<u8>, JsonV)>, key: Seq<u8>, ix: int)
    requires
        0 <= ix < fv.len(),
        fv[ix].0 == key,
        forall|j: int| 0 <= j < ix ==> (#[trigger] fv[j]).0 != key,
    ensures
        obj_get(fv, key) == Option::Some(fv[ix].1),
    decreases ix,
{
    if ix > 0 {
        lemma_obj_get_at(fv.drop_first(), key, ix - 1);
    }
}

/// `obj_get` finds nothing when no field carries the key.
pub proof fn lemma_obj_get_none(fv: Seq<(Seq<u8>, JsonV)>, key: Seq<u8>)
    requires
        forall|j: int| 0 <= j < fv.len() ==> (#[trigger] fv[j]).0 != key,
    ensures
        obj_get(fv, key) is None,
    decreases fv.len(),
{
    if fv.len() > 0 {
        lemma_obj_get_none(fv.drop_first(), key);
    }
}

/// Find the first field of an object carrying the given key.
pub fn find_field(fields: &Vec<(Vec<u8>, Json)>, key: &Vec<u8>) -> (r: Option<usize>)
    ensures
        r matches Some(ix) ==> ix < fields@.len() && fields@[ix as int].0@ == key@ && obj_get(
            view_fields(fields@),
            key@,
        ) == Option::Some(fields@[ix as int].1@),
        (r is None) == (obj_get(view_fields(fields@), key@) is None),
{
    broadcast use {lemma_view_fields_len, lemma_view_fields_index};

    let mut k: usize = 0;
    while k < fields.len()
        invariant
            k <= fields@.len(),
            forall|j: int| 0 <= j < k ==> (#[trigger] fields@[j]).0@ != key@,
        decreases fields@.len() - k,
    {
        if crate::messages::bytes_eq(&fields[k].0, key) {
            proof {
                lemma_view_fields_len(fields@);
                assert forall|j: int| 0 <= j < k implies (#[trigger] view_fields(fields@)[
                    j]).0 != key@ by {
                    lemma_view_fields_index(fields@, j);
                }
                lemma_view_fields_index(fields@, k as int);
                lemma_obj_get_at(view_fields(fields@), key@, k as int);
            }
            return Some(k);
        }
        k = k + 1;
    }
    proof {
        lemma_view_fields_len(fields@);
        assert forall|j: int| 0 <= j < view_fields(fields@).len() implies (
        #[trigger] view_fields(fields@)[j]).0 != key@ by {
            lemma_view_fields_index(fields@, j);
        }
        lemma_obj_get_none(view_fields(fields@), key@);
    }
    None
}

} // verus!
