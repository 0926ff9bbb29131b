//! The Encode capability: a value appends its JSON text to a byte buffer.
use vstd::prelude::*;
use vstd::utf8::encode_utf8;

verus! {

/// Encode Trait
///
/// A value appends its JSON representation to a buffer, never touching what
/// is already there. Implement it to log values of your own types.
pub trait Encode: Sync + Send {
    /// The JSON text of the value. A type that keeps this default states one
    /// unknown text for all its values, which no `encode` can be proved to
    /// meet: a verified impl states its own.
    open spec fn encoding(&self) -> Seq<u8> {
        arbitrary()
    }

    /// Append the JSON text of the value to `buf`.
    fn encode(&self, buf: &mut Vec<u8>)
        ensures
            final(buf)@ == old(buf)@ + self.encoding(),
    ;
}

/// The ASCII byte of a decimal digit.
pub open spec fn digit_byte(d: nat) -> u8 {
    (48 + d) as u8
}

/// Decimal digits of a natural number, most significant first, no leading zero.
pub open spec fn digits(n: nat) -> Seq<u8>
    decreases n,
{
    if n < 10 {
        seq![digit_byte(n)]
    } else {
        digits(n / 10).push(digit_byte(n % 10))
    }
}

/// Decimal text of an integer, with a leading `-` when it is negative.
pub open spec fn decimal(v: int) -> Seq<u8> {
    if v < 0 {
        seq![45u8] + digits((-v) as nat)
    } else {
        digits(v as nat)
    }
}

/// Lowercase hexadecimal digit of `d < 16`.
pub open spec fn hex_byte(d: u8) -> u8 {
    if d < 10 {
        (48 + d) as u8
    } else {
        (87 + d) as u8
    }
}

/// How one byte stands inside a JSON string: quote, backslash and control
/// bytes are escaped, every other byte stands for itself.
pub open spec fn escape_byte(b: u8) -> Seq<u8> {
    if b == 34 {
        seq![92u8, 34u8]
    } else if b == 92 {
        seq![92u8, 92u8]
    } else if b == 10 {
        seq![92u8, 110u8]
    } else if b == 13 {
        seq![92u8, 114u8]
    } else if b == 9 {
        seq![92u8, 116u8]
    } else if b == 8 {
        seq![92u8, 98u8]
    } else if b == 12 {
        seq![92u8, 102u8]
    } else if b < 32 {
        seq![92u8, 117u8, 48u8, 48u8, hex_byte(b / 16), hex_byte(b % 16)]
    } else {
        seq![b]
    }
}

/// The escaped body of a JSON string holding the bytes `s`.
pub open spec fn escape(s: Seq<u8>) -> Seq<u8>
    decreases s.len(),
{
    if s.len() == 0 {
        Seq::empty()
    } else {
        escape(s.drop_last()) + escape_byte(s.last())
    }
}

/// A JSON string token holding the bytes `s`.
pub open spec fn json_string(s: Seq<u8>) -> Seq<u8> {
    seq![34u8] + escape(s) + seq![34u8]
}

/// A JSON string token holding the UTF-8 text of `chars`.
pub open spec fn json_text(chars: Seq<char>) -> Seq<u8> {
    json_string(encode_utf8(chars))
}

/// The literal `true` or `false`.
pub open spec fn bool_text(b: bool) -> Seq<u8> {
    if b {
        seq![116u8, 114u8, 117u8, 101u8]
    } else {
        seq![102u8, 97u8, 108u8, 115u8, 101u8]
    }
}

/// Relies on itoa::Buffer::format: the decimal text of an integer, '-' first
/// when it is negative, no leading zero.
#[verifier::external_body]
pub(crate) fn decimal_bytes(v: i128) -> (r: Vec<u8>)
    ensures
        r@ == decimal(v as int),
{
    itoa::Buffer::new().format(v).as_bytes().to_vec()
}

/// Append every byte of `bytes` to `buf`.
pub fn push_bytes(buf: &mut Vec<u8>, bytes: &[u8])
    ensures
        final(buf)@ == old(buf)@ + bytes@,
{
    let mut i: usize = 0;
    while i < bytes.len()
        invariant
            i <= bytes@.len(),
            buf@ == old(buf)@ + bytes@.subrange(0, i as int),
        decreases bytes@.len() - i,
    {
        buf.push(bytes[i]);
        i = i + 1;
        assert(bytes@.subrange(0, i as int) =~= bytes@.subrange(0, i - 1).push(bytes@[i - 1]));
    }
    assert(bytes@.subrange(0, i as int) =~= bytes@);
}

/// Append the decimal text of `v` to `buf`.
pub fn push_decimal(buf: &mut Vec<u8>, v: i128)
    ensures
        final(buf)@ == old(buf)@ + decimal(v as int),
{
    let text = decimal_bytes(v);
    push_bytes(buf, text.as_slice());
}

fn hex_digit(d: u8) -> (r: u8)
    requires
        d < 16,
    ensures
        r == hex_byte(d),
{
    if d < 10 {
        48 + d
    } else {
        87 + d
    }
}

/// Append the escaped form of one byte.
fn push_escaped(buf: &mut Vec<u8>, b: u8)
    ensures
        final(buf)@ == old(buf)@ + escape_byte(b),
{
    let ghost start = buf@;
    if b == 34 || b == 92 {
        buf.push(92);
        buf.push(b);
    } else if b == 10 {
        buf.push(92);
        buf.push(110);
    } else if b == 13 {
        buf.push(92);
        buf.push(114);
    } else if b == 9 {
        buf.push(92);
        buf.push(116);
    } else if b == 8 {
        buf.push(92);
        buf.push(98);
    } else if b == 12 {
        buf.push(92);
        buf.push(102);
    } else if b < 32 {
        buf.push(92);
        buf.push(117);
        buf.push(48);
        buf.push(48);
        buf.push(hex_digit(b / 16));
        buf.push(hex_digit(b % 16));
    } else {
        buf.push(b);
    }
    assert(buf@ =~= start + escape_byte(b));
}

/// Append `bytes` to `buf` as one JSON string token.
pub fn push_json_string(buf: &mut Vec<u8>, bytes: &[u8])
    ensures
        final(buf)@ == old(buf)@ + json_string(bytes@),
{
    buf.push(34);
    let mut i: usize = 0;
    while i < bytes.len()
        invariant
            i <= bytes@.len(),
            buf@ == old(buf)@ + seq![34u8] + escape(bytes@.subrange(0, i as int)),
        decreases bytes@.len() - i,
    {
        let ghost before = bytes@.subrange(0, i as int);
        push_escaped(buf, bytes[i]);
        i = i + 1;
        assert(bytes@.subrange(0, i as int).drop_last() =~= before);
    }
    assert(bytes@.subrange(0, i as int) =~= bytes@);
    buf.push(34);
    assert(buf@ =~= old(buf)@ + json_string(bytes@));
}

impl Encode for i8 {
    open spec fn encoding(&self) -> Seq<u8> {
        decimal(*self as int)
    }

    fn encode(&self, buf: &mut Vec<u8>) {
        push_decimal(buf, *self as i128);
    }
}

impl Encode for i16 {
    open spec fn encoding(&self) -> Seq<u8> {
        decimal(*self as int)
    }

    fn encode(&self, buf: &mut Vec<u8>) {
        push_decimal(buf, *self as i128);
    }
}

impl Encode for i32 {
    open spec fn encoding(&self) -> Seq<u8> {
        decimal(*self as int)
    }

    fn encode(&self, buf: &mut Vec<u8>) {
        push_decimal(buf, *self as i128);
    }
}

impl Encode for i64 {
    open spec fn encoding(&self) -> Seq<u8> {
        decimal(*self as int)
    }

    fn encode(&self, buf: &mut Vec<u8>) {
        push_decimal(buf, *self as i128);
    }
}

impl Encode for isize {
    open spec fn encoding(&self) -> Seq<u8> {
        decimal(*self as int)
    }

    fn encode(&self, buf: &mut Vec<u8>) {
        push_decimal(buf, *self as i128);
    }
}

impl Encode for u8 {
    open spec fn encoding(&self) -> Seq<u8> {
        decimal(*self as int)
    }

    fn encode(&self, buf: &mut Vec<u8>) {
        push_decimal(buf, *self as i128);
    }
}

impl Encode for u16 {
    open spec fn encoding(&self) -> Seq<u8> {
        decimal(*self as int)
    }

    fn encode(&self, buf: &mut Vec<u8>) {
        push_decimal(buf, *self as i128);
    }
}

impl Encode for u32 {
    open spec fn encoding(&self) -> Seq<u8> {
        decimal(*self as int)
    }

    fn encode(&self, buf: &mut Vec<u8>) {
        push_decimal(buf, *self as i128);
    }
}

impl Encode for u64 {
    open spec fn encoding(&self) -> Seq<u8> {
        decimal(*self as int)
    }

    fn encode(&self, buf: &mut Vec<u8>) {
        push_decimal(buf, *self as i128);
    }
}

impl Encode for usize {
    open spec fn encoding(&self) -> Seq<u8> {
        decimal(*self as int)
    }

    fn encode(&self, buf: &mut Vec<u8>) {
        push_decimal(buf, *self as i128);
    }
}

impl Encode for bool {
    open spec fn encoding(&self) -> Seq<u8> {
        bool_text(*self)
    }

    fn encode(&self, buf: &mut Vec<u8>) {
        let ghost start = buf@;
        if *self {
            buf.push(116);
            buf.push(114);
            buf.push(117);
            buf.push(101);
        } else {
            buf.push(102);
            buf.push(97);
            buf.push(108);
            buf.push(115);
            buf.push(101);
        }
        assert(buf@ =~= start + bool_text(*self));
    }
}

impl<'a> Encode for &'a str {
    open spec fn encoding(&self) -> Seq<u8> {
        json_text((*self)@)
    }

    fn encode(&self, buf: &mut Vec<u8>) {
        push_json_string(buf, self.as_bytes());
    }
}

impl Encode for String {
    open spec fn encoding(&self) -> Seq<u8> {
        json_text(self@)
    }

    fn encode(&self, buf: &mut Vec<u8>) {
        push_json_string(buf, self.as_str().as_bytes());
    }
}

/// The JSON texts of `items`, separated by commas.
pub open spec fn joined<T: Encode>(items: Seq<T>) -> Seq<u8>
    decreases items.len(),
{
    if items.len() == 0 {
        Seq::empty()
    } else if items.len() == 1 {
        items[0].encoding()
    } else {
        joined(items.drop_last()) + seq![44u8] + items.last().encoding()
    }
}

impl<T: Encode> Encode for Vec<T> {
    open spec fn encoding(&self) -> Seq<u8> {
        seq![91u8] + joined(self@) + seq![93u8]
    }

    fn encode(&self, buf: &mut Vec<u8>) {
        buf.push(91);
        let mut i: usize = 0;
        while i < self.len()
            invariant
                i <= self@.len(),
                buf@ == old(buf)@ + seq![91u8] + joined(self@.subrange(0, i as int)),
            decreases self@.len() - i,
        {
            let ghost before = buf@;
            if i > 0 {
                buf.push(44);
            }
            self[i].encode(buf);
            i = i + 1;
            assert(self@.subrange(0, i as int).drop_last() =~= self@.subrange(0, i - 1));
            assert(buf@ =~= old(buf)@ + seq![91u8] + joined(self@.subrange(0, i as int)));
        }
        assert(self@.subrange(0, i as int) =~= self@);
        buf.push(93);
        assert(buf@ =~= old(buf)@ + self.encoding());
    }
}

/// A letter that may follow a backslash in a JSON string on its own.
pub open spec fn is_escape_letter(b: u8) -> bool {
    b == 34 || b == 92 || b == 47 || b == 98 || b == 102 || b == 110 || b == 114 || b == 116
}

/// A hexadecimal digit, in either case.
pub open spec fn is_hex_digit(b: u8) -> bool {
    (48 <= b <= 57) || (97 <= b <= 102) || (65 <= b <= 70)
}

/// The body of a JSON string as the JSON grammar has it: no bare quote or
/// control byte, and every backslash starts a complete escape.
pub open spec fn string_body_ok(b: Seq<u8>) -> bool
    decreases b.len(),
{
    if b.len() == 0 {
        true
    } else if b[0] == 92 {
        if b.len() >= 2 && is_escape_letter(b[1]) {
            string_body_ok(b.subrange(2, b.len() as int))
        } else if b.len() >= 6 && b[1] == 117 && is_hex_digit(b[2]) && is_hex_digit(b[3])
            && is_hex_digit(b[4]) && is_hex_digit(b[5]) {
            string_body_ok(b.subrange(6, b.len() as int))
        } else {
            false
        }
    } else {
        b[0] != 34 && b[0] >= 32 && string_body_ok(b.subrange(1, b.len() as int))
    }
}

/// An ASCII decimal digit byte.
pub open spec fn is_digit_byte(b: u8) -> bool {
    48 <= b <= 57
}

/// A JSON integer: an optional minus sign, then digits with no leading zero.
pub open spec fn integer_ok(t: Seq<u8>) -> bool {
    let body = if t.len() > 0 && t[0] == 45 {
        t.subrange(1, t.len() as int)
    } else {
        t
    };
    &&& body.len() > 0
    &&& forall|i: int| 0 <= i < body.len() ==> #[trigger] is_digit_byte(body[i])
    &&& body[0] == 48 ==> body.len() == 1
}

/// Two valid string bodies in a row make a valid string body.
pub proof fn lemma_string_body_concat(a: Seq<u8>, c: Seq<u8>)
    requires
        string_body_ok(a),
        string_body_ok(c),
    ensures
        string_body_ok(a + c),
    decreases a.len(),
{
    if a.len() == 0 {
        assert(a + c =~= c);
    } else {
        let ac = a + c;
        if a[0] == 92 {
            if a.len() >= 2 && is_escape_letter(a[1]) {
                lemma_string_body_concat(a.subrange(2, a.len() as int), c);
                assert(ac.subrange(2, ac.len() as int) =~= a.subrange(2, a.len() as int) + c);
            } else {
                lemma_string_body_concat(a.subrange(6, a.len() as int), c);
                assert(ac.subrange(6, ac.len() as int) =~= a.subrange(6, a.len() as int) + c);
            }
        } else {
            lemma_string_body_concat(a.subrange(1, a.len() as int), c);
            assert(ac.subrange(1, ac.len() as int) =~= a.subrange(1, a.len() as int) + c);
        }
    }
}

/// The escaped form of one byte is a valid string body.
pub proof fn lemma_escape_byte_ok(b: u8)
    ensures
        string_body_ok(escape_byte(b)),
{
    let e = escape_byte(b);
    reveal_with_fuel(string_body_ok, 2);
    if b == 34 || b == 92 || b == 10 || b == 13 || b == 9 || b == 8 || b == 12 {
        assert(e.subrange(2, e.len() as int) =~= Seq::<u8>::empty());
    } else if b < 32 {
        assert(e.subrange(6, e.len() as int) =~= Seq::<u8>::empty());
        assert(b / 16 < 16 && b % 16 < 16) by (bit_vector);
    } else {
        assert(e.subrange(1, e.len() as int) =~= Seq::<u8>::empty());
    }
}

/// Whatever the bytes, their escaped form is a valid JSON string body: a
/// string field never breaks the JSON text it stands in.
pub proof fn lemma_escape_ok(s: Seq<u8>)
    ensures
        string_body_ok(escape(s)),
    decreases s.len(),
{
    if s.len() > 0 {
        lemma_escape_ok(s.drop_last());
        lemma_escape_byte_ok(s.last());
        lemma_string_body_concat(escape(s.drop_last()), escape_byte(s.last()));
    }
}

/// The digits of a number are decimal digits, and only zero starts with `0`.
pub proof fn lemma_digits_ok(n: nat)
    ensures
        digits(n).len() > 0,
        forall|i: int| 0 <= i < digits(n).len() ==> #[trigger] is_digit_byte(digits(n)[i]),
        digits(n)[0] == 48 ==> n == 0,
        n == 0 ==> digits(n).len() == 1,
    decreases n,
{
    if n >= 10 {
        lemma_digits_ok(n / 10);
        let prev = digits(n / 10);
        assert(digits(n)[0] == prev[0]);
        assert forall|i: int| 0 <= i < digits(n).len() implies #[trigger] is_digit_byte(digits(n)[i]) by {
            if i < prev.len() {
                assert(digits(n)[i] == prev[i]);
            }
        }
    }
}

/// The decimal text of every integer is a valid JSON integer.
pub proof fn lemma_decimal_ok(v: int)
    ensures
        integer_ok(decimal(v)),
{
    if v < 0 {
        lemma_digits_ok((-v) as nat);
        let t = decimal(v);
        assert(t[0] == 45);
        assert(t.subrange(1, t.len() as int) =~= digits((-v) as nat));
    } else {
        lemma_digits_ok(v as nat);
        assert(is_digit_byte(digits(v as nat)[0]));
    }
}

/// A JSON scalar token as this library writes one: an integer, `true`,
/// `false`, or a string.
pub open spec fn scalar_ok(v: Seq<u8>) -> bool {
    ||| integer_ok(v)
    ||| v == bool_text(true)
    ||| v == bool_text(false)
    ||| (v.len() >= 2 && v[0] == 34 && v[v.len() - 1] == 34 && string_body_ok(
        v.subrange(1, v.len() - 1),
    ))
}

/// What the integer, boolean and string encodings write are JSON scalar tokens.
pub proof fn lemma_scalar_encodings(v: int, b: bool, s: Seq<u8>)
    ensures
        scalar_ok(decimal(v)),
        scalar_ok(bool_text(b)),
        scalar_ok(json_string(s)),
{
    lemma_decimal_ok(v);
    lemma_escape_ok(s);
    let t = json_string(s);
    assert(t.subrange(1, t.len() - 1) =~= escape(s));
}

} // verus!
