//! Base-N text encoding of byte strings, with a configurable alphabet of
//! 2, 4, 8, 16, 32 or 64 characters.
//!
//! A byte string is read as one big-endian unsigned number and written out in
//! the chosen base, most significant digit first. Decoding reads the digits
//! back and yields the shortest big-endian byte string of that number.
use vstd::arithmetic::div_mod::{lemma_fundamental_div_mod, lemma_fundamental_div_mod_converse};
use vstd::prelude::*;
use vstd::utf8::{decode_utf8, valid_utf8};

verus! {

/// The number that `s` spells in big-endian base 256.
pub open spec fn be_value(s: Seq<u8>) -> nat
    decreases s.len(),
{
    if s.len() == 0 {
        0
    } else {
        be_value(s.drop_last()) * 256 + s.last() as nat
    }
}

/// `256` to the power `n`.
pub open spec fn pow256(n: nat) -> nat
    decreases n,
{
    if n == 0 {
        1
    } else {
        256 * pow256((n - 1) as nat)
    }
}

/// The number that the digits `d` spell in base `base`, most significant first.
pub open spec fn digits_value(d: Seq<nat>, base: nat) -> nat
    decreases d.len(),
{
    if d.len() == 0 {
        0
    } else {
        digits_value(d.drop_last(), base) * base + d.last()
    }
}

/// The digits of `n` in base `base`, most significant first, without leading
/// zeros (empty for zero).
pub open spec fn msd_digits(n: nat, base: nat) -> Seq<nat>
    decreases n
    via msd_digits_decreases

{
    if n == 0 || base < 2 {
        seq![]
    } else {
        msd_digits(n / base, base).push(n % base)
    }
}

#[via_fn]
proof fn msd_digits_decreases(n: nat, base: nat) {
    if !(n == 0 || base < 2) {
        lemma_div_below(n, base);
    }
}

/// Dividing a positive number by two or more makes it smaller.
proof fn lemma_div_below(n: nat, base: nat)
    requires
        n > 0,
        base >= 2,
    ensures
        n / base < n,
{
    {
        lemma_fundamental_div_mod(n as int, base as int);
        assert(n / base < n) by (nonlinear_arith)
            requires
                n == base * (n / base) + n % base,
                base >= 2,
                n > 0,
                n % base >= 0,
                n / base >= 0,
        ;
    }
}

/// The shortest big-endian byte string of `n`: at least one byte, and no
/// leading zero byte.
pub open spec fn bytes_of(n: nat) -> Seq<u8>
    decreases n,
{
    if n < 256 {
        seq![n as u8]
    } else {
        bytes_of(n / 256).push((n % 256) as u8)
    }
}

/// Whether `s` has no leading zero byte, other than a single zero byte.
pub open spec fn is_minimal(s: Seq<u8>) -> bool {
    s.len() == 1 || (s.len() > 1 && s[0] != 0)
}

/// Whether no character occurs twice in `a`.
pub open spec fn distinct(a: Seq<char>) -> bool {
    forall|i: int, j: int| 0 <= i < j < a.len() ==> a[i] != a[j]
}

/// The position of the first `c` in `a`, or `-1`.
pub open spec fn first_index(a: Seq<char>, c: char) -> int
    decreases a.len(),
{
    if a.len() == 0 {
        -1
    } else if first_index(a.drop_last(), c) >= 0 {
        first_index(a.drop_last(), c)
    } else if a.last() == c {
        a.len() - 1
    } else {
        -1
    }
}

/// The digit of each character of `s` in the alphabet `a`, or the first
/// character of `s` that `a` does not hold.
pub open spec fn decode_digits(a: Seq<char>, s: Seq<char>) -> Result<Seq<nat>, char>
    decreases s.len(),
{
    if s.len() == 0 {
        Ok(seq![])
    } else {
        match decode_digits(a, s.drop_last()) {
            Err(c) => Err(c),
            Ok(d) => if first_index(a, s.last()) >= 0 {
                Ok(d.push(first_index(a, s.last()) as nat))
            } else {
                Err(s.last())
            },
        }
    }
}

/// The characters of the digits `ds` in the alphabet `a`.
pub open spec fn spell(a: Seq<char>, ds: Seq<nat>) -> Seq<char> {
    ds.map_values(|d: nat| a[d as int])
}

/// What encoding `input` in base `base` with the alphabet `a` yields.
pub open spec fn encode_spec(a: Seq<char>, base: nat, input: Seq<u8>) -> Seq<char> {
    if input.len() == 0 {
        seq![]
    } else if be_value(input) == 0 {
        seq![a[0]]
    } else {
        spell(a, msd_digits(be_value(input), base))
    }
}

/// What decoding `input` in base `base` with the alphabet `a` yields.
pub open spec fn decode_spec(a: Seq<char>, base: nat, input: Seq<char>) -> Result<Seq<u8>, char> {
    if input.len() == 0 {
        Ok(seq![])
    } else {
        match decode_digits(a, input) {
            Ok(d) => Ok(bytes_of(digits_value(d, base))),
            Err(c) => Err(c),
        }
    }
}

/// The alphabet of a base-N encoding; each variant fixes the base.
#[derive(Debug, Clone)]
pub enum BaseXMap {
    Base2([char; 2]),
    Base4([char; 4]),
    Base8([char; 8]),
    Base16([char; 16]),
    Base32([char; 32]),
    Base64(Vec<char>),
}

/// Why a base-N text could not be decoded.
#[derive(Debug)]
pub enum Error {
    /// A character that the alphabet does not hold.
    InvalidCharacter(char),
    /// A text of a length that the encoding cannot produce.
    InvalidLength(usize),
    /// The decoded bytes are not UTF-8; they are kept here.
    Utf8Decode(Vec<u8>),
}

impl Error {
    /// The message shown to a chat user for this error.
    pub fn message(&self) -> (r: String)
        ensures
            self matches Error::InvalidCharacter(c) ==> r@ == "字符 '"@ + seq![*c] + "' 无效喵"@,
            self is InvalidLength ==> r@ == "长度无效喵"@,
            self is Utf8Decode ==> r@ == "UTF-8 编码错误喵"@,
    {
        match self {
            Error::InvalidCharacter(c) => {
                let mut s = String::from_str("字符 '");
                push_char(&mut s, *c);
                s.append("' 无效喵");
                s
            },
            Error::InvalidLength(_) => String::from_str("长度无效喵"),
            Error::Utf8Decode(_) => String::from_str("UTF-8 编码错误喵"),
        }
    }
}

/// Relies on `String::push`: the character is appended at the end.
#[verifier::external_body]
pub(crate) fn push_char(s: &mut String, c: char)
    ensures
        final(s)@ == old(s)@.push(c),
{
    s.push(c)
}

impl BaseXMap {
    /// The characters of the alphabet, digit zero first.
    pub open spec fn spec_alphabet(&self) -> Seq<char> {
        match self {
            BaseXMap::Base2(c) => c@,
            BaseXMap::Base4(c) => c@,
            BaseXMap::Base8(c) => c@,
            BaseXMap::Base16(c) => c@,
            BaseXMap::Base32(c) => c@,
            BaseXMap::Base64(c) => c@,
        }
    }

    /// The base that the variant stands for.
    pub open spec fn spec_base(&self) -> nat {
        match self {
            BaseXMap::Base2(_) => 2,
            BaseXMap::Base4(_) => 4,
            BaseXMap::Base8(_) => 8,
            BaseXMap::Base16(_) => 16,
            BaseXMap::Base32(_) => 32,
            BaseXMap::Base64(_) => 64,
        }
    }

    /// The alphabet has one character per digit of the base.
    pub open spec fn wf(&self) -> bool {
        self.spec_alphabet().len() == self.spec_base()
    }

    fn table(&self) -> (r: (u16, &[char]))
        ensures
            r.0 as nat == self.spec_base(),
            r.1@ == self.spec_alphabet(),
    {
        match self {
            BaseXMap::Base2(c) => (2, c.as_slice()),
            BaseXMap::Base4(c) => (4, c.as_slice()),
            BaseXMap::Base8(c) => (8, c.as_slice()),
            BaseXMap::Base16(c) => (16, c.as_slice()),
            BaseXMap::Base32(c) => (32, c.as_slice()),
            BaseXMap::Base64(c) => (64, c.as_slice()),
        }
    }

    /// Writes `input`, read as a big-endian number, in this base: empty for
    /// empty input, the zero digit for a number of zero, else its digits
    /// without leading zeros.
    pub fn encode(&self, input: &[u8]) -> (r: String)
        requires
            self.wf(),
        ensures
            r@ == encode_spec(self.spec_alphabet(), self.spec_base(), input@),
    {
        if input.len() == 0 {
            return String::new();
        }
        let (base, chars) = self.table();
        let mut digits: Vec<u8> = slice_to_vec_u8(input);
        if is_zero(&digits) {
            let mut s = String::new();
            push_char(&mut s, chars[0]);
            return s;
        }
        let ghost n = be_value(input@);
        let ghost b = base as nat;
        // digits produced so far, least significant first
        let ghost mut rd: Seq<nat> = seq![];
        let mut result: Vec<char> = Vec::new();
        proof {
            assert(msd_digits(n, b) + rd.reverse() =~= msd_digits(n, b));
        }
        while !is_zero(&digits)
            invariant
                2 <= b <= 64,
                base as nat == b,
                chars@ == self.spec_alphabet(),
                chars@.len() == b,
                digits@.len() >= 1,
                result@.len() == rd.len(),
                forall|i: int| 0 <= i < rd.len() ==> rd[i] < b,
                forall|i: int| 0 <= i < rd.len() ==> result@[i] == chars@[rd[i] as int],
                msd_digits(n, b) == msd_digits(be_value(digits@), b) + rd.reverse(),
            decreases be_value(digits@),
        {
            let ghost v = be_value(digits@);
            let carry = divide_in_place(&mut digits, base);
            proof {
                assert(v / b < v) by {
                    lemma_fundamental_div_mod(v as int, b as int);
                }
                lemma_msd_digits_step(v, b);
                assert(rd.push(carry as nat).reverse() =~= seq![carry as nat] + rd.reverse());
                assert(msd_digits(v / b, b).push(v % b) + rd.reverse() =~= msd_digits(v / b, b)
                    + (seq![carry as nat] + rd.reverse()));
                rd = rd.push(carry as nat);
            }
            result.push(chars[carry as usize]);
            strip_leading_zeros(&mut digits);
        }
        proof {
            assert(msd_digits(0, b) =~= seq![]);
            assert(msd_digits(n, b) =~= rd.reverse());
        }
        let mut s = String::new();
        let mut i: usize = result.len();
        while i > 0
            invariant
                i <= result@.len(),
                result@.len() == rd.len(),
                forall|k: int| 0 <= k < rd.len() ==> result@[k] == chars@[rd[k] as int],
                s@ =~= rd.reverse().subrange(0, (rd.len() - i) as int).map_values(
                    |d: nat| chars@[d as int],
                ),
            decreases i,
        {
            i = i - 1;
            push_char(&mut s, result[i]);
            proof {
                assert(rd.reverse().subrange(0, (rd.len() - i) as int) =~= rd.reverse().subrange(
                    0,
                    (rd.len() - i - 1) as int,
                ).push(rd[i as int]));
            }
        }
        proof {
            assert(rd.reverse().subrange(0, rd.len() as int) =~= rd.reverse());
        }
        s
    }

    /// Reads `input` as digits of this base, most significant first, and
    /// returns the shortest big-endian bytes of the number they spell (empty
    /// for empty input); fails on the first character outside the alphabet.
    pub fn decode(&self, input: &str) -> (r: Result<Vec<u8>, Error>)
        requires
            self.wf(),
        ensures
            r is Ok <==> decode_spec(self.spec_alphabet(), self.spec_base(), input@) is Ok,
            r is Ok ==> r->Ok_0@ == decode_spec(
                self.spec_alphabet(),
                self.spec_base(),
                input@,
            )->Ok_0,
            r is Err ==> r->Err_0 == Error::InvalidCharacter(
                decode_spec(self.spec_alphabet(), self.spec_base(), input@)->Err_0,
            ),
    {
        if input.is_empty() {
            return Ok(Vec::new());
        }
        let (base, chars) = self.table();
        let ghost a = chars@;
        let ghost b = base as nat;
        let n = input.unicode_len();
        let mut indices: Vec<u8> = Vec::new();
        let mut i: usize = 0;
        proof {
            assert(input@.take(0) =~= Seq::<char>::empty());
            assert(indices@.map_values(|x: u8| x as nat) =~= Seq::<nat>::empty());
        }
        while i < n
            invariant
                n == input@.len(),
                i <= n,
                a == self.spec_alphabet(),
                a.len() == b,
                2 <= b <= 64,
                base as nat == b,
                chars@ == a,
                forall|k: int| 0 <= k < indices@.len() ==> (indices@[k] as nat) < b,
                decode_digits(a, input@.take(i as int)) == Ok::<Seq<nat>, char>(
                    indices@.map_values(|x: u8| x as nat),
                ),
            decreases n - i,
        {
            let ch = input.get_char(i);
            proof {
                assert(input@.take(i as int + 1).drop_last() =~= input@.take(i as int));
                assert(input@.take(i as int + 1).last() == ch);
            }
            match find_char(chars, ch) {
                Some(idx) => {
                    let ghost prev = indices@.map_values(|x: u8| x as nat);
                    indices.push(idx as u8);
                    proof {
                        assert(indices@.map_values(|x: u8| x as nat) =~= prev.push(idx as nat));
                    }
                },
                None => {
                    proof {
                        lemma_decode_digits_err_prefix(a, input@, i as int + 1);
                    }
                    return Err(Error::InvalidCharacter(ch));
                },
            }
            i = i + 1;
        }
        proof {
            assert(input@.take(n as int) =~= input@);
        }
        let ghost ds = indices@.map_values(|x: u8| x as nat);
        let mut result: Vec<u8> = Vec::new();
        result.push(0u8);
        let mut k: usize = 0;
        proof {
            lemma_be_value_single(0u8);
            assert(result@ =~= seq![0u8]);
            assert(ds.take(0) =~= Seq::<nat>::empty());
            assert(digits_value(Seq::<nat>::empty(), b) == 0);
        }
        while k < indices.len()
            invariant
                2 <= base <= 64,
                base as nat == b,
                ds == indices@.map_values(|x: u8| x as nat),
                forall|t: int| 0 <= t < indices@.len() ==> (indices@[t] as nat) < b,
                k <= indices@.len(),
                result@.len() >= 1,
                be_value(result@) == digits_value(ds.take(k as int), b),
            decreases indices@.len() - k,
        {
            mul_add_in_place(&mut result, base, indices[k] as u16);
            proof {
                assert(ds.take(k as int + 1).drop_last() =~= ds.take(k as int));
                assert(ds.take(k as int + 1).last() == indices@[k as int] as nat);
            }
            k = k + 1;
        }
        proof {
            assert(ds.take(indices@.len() as int) =~= ds);
        }
        strip_leading_zeros(&mut result);
        proof {
            lemma_minimal_bytes_of(result@);
        }
        Ok(result)
    }

    /// Decodes `input` and reads the bytes as UTF-8 text.
    pub fn decode_string(&self, input: &str) -> (r: Result<String, Error>)
        requires
            self.wf(),
        ensures
            ({
                let d = decode_spec(self.spec_alphabet(), self.spec_base(), input@);
                match d {
                    Err(c) => r == Err::<String, Error>(Error::InvalidCharacter(c)),
                    Ok(bytes) => if valid_utf8(bytes) {
                        r is Ok && r->Ok_0@ == decode_utf8(bytes)
                    } else {
                        r is Err && (r->Err_0 matches Error::Utf8Decode(v) && v@ == bytes)
                    },
                }
            }),
    {
        let bytes = match self.decode(input) {
            Ok(b) => b,
            Err(e) => return Err(e),
        };
        match string_from_utf8(bytes) {
            Ok(s) => Ok(s),
            Err(b) => Err(Error::Utf8Decode(b)),
        }
    }
}

/// Relies on `String::from_utf8`: it succeeds exactly on valid UTF-8 and then
/// holds the characters those bytes encode; on failure the bytes come back
/// (`FromUtf8Error::into_bytes`).
#[verifier::external_body]
fn string_from_utf8(b: Vec<u8>) -> (r: Result<String, Vec<u8>>)
    ensures
        r is Ok <==> valid_utf8(b@),
        r is Ok ==> r->Ok_0@ == decode_utf8(b@),
        r is Err ==> r->Err_0@ == b@,
{
    String::from_utf8(b).map_err(|e| e.into_bytes())
}

/// Decoding what was encoded with an alphabet of distinct characters gives
/// the shortest big-endian bytes of the same number: the input itself when it
/// is empty or has no leading zero byte (a lone zero byte included).
pub proof fn law_decode_encode(m: BaseXMap, input: Seq<u8>)
    requires
        m.wf(),
        distinct(m.spec_alphabet()),
        input.len() == 0 || is_minimal(input),
    ensures
        decode_spec(
            m.spec_alphabet(),
            m.spec_base(),
            encode_spec(m.spec_alphabet(), m.spec_base(), input),
        ) == Ok::<Seq<u8>, char>(input),
{
    lemma_decode_encode_canonical(m, input);
    if input.len() > 0 {
        lemma_minimal_bytes_of(input);
    } else {
        assert(input =~= Seq::<u8>::empty());
    }
}

/// Decoding what was encoded yields the shortest bytes of the input's number.
pub proof fn lemma_decode_encode_canonical(m: BaseXMap, input: Seq<u8>)
    requires
        m.wf(),
        distinct(m.spec_alphabet()),
    ensures
        decode_spec(
            m.spec_alphabet(),
            m.spec_base(),
            encode_spec(m.spec_alphabet(), m.spec_base(), input),
        ) == Ok::<Seq<u8>, char>(
            if input.len() == 0 {
                Seq::<u8>::empty()
            } else {
                bytes_of(be_value(input))
            },
        ),
{
    let a = m.spec_alphabet();
    let b = m.spec_base();
    let n = be_value(input);
    if input.len() == 0 {
    } else if n == 0 {
        let e = seq![a[0]];
        lemma_first_index_distinct(a, 0);
        assert(e.drop_last() =~= Seq::<char>::empty());
        assert(decode_digits(a, Seq::<char>::empty()) == Ok::<Seq<nat>, char>(seq![]));
        assert(decode_digits(a, e) == Ok::<Seq<nat>, char>(seq![0nat]));
        assert(seq![0nat].drop_last() =~= Seq::<nat>::empty());
        assert(digits_value(Seq::<nat>::empty(), b) == 0);
        assert(seq![0nat].last() == 0);
        assert(digits_value(seq![0nat], b) == 0);
    } else {
        let ds = msd_digits(n, b);
        lemma_msd_digits_bound(n, b);
        lemma_decode_digits_map(a, ds);
        lemma_digits_value_msd(n, b);
        assert(ds.len() > 0);
    }
}

/// Each character of a distinct alphabet is found at its own position.
proof fn lemma_first_index_distinct(a: Seq<char>, d: int)
    requires
        distinct(a),
        0 <= d < a.len(),
    ensures
        first_index(a, a[d]) == d,
    decreases a.len(),
{
    let t = a.drop_last();
    if d < a.len() - 1 {
        assert(t[d] == a[d]);
        lemma_first_index_distinct(t, d);
    } else {
        if first_index(t, a[d]) >= 0 {
            lemma_first_index_found(t, a[d]);
            let k = first_index(t, a[d]);
            assert(a[k] == t[k]);
        }
    }
}

/// A found position holds the character.
proof fn lemma_first_index_found(a: Seq<char>, c: char)
    requires
        first_index(a, c) >= 0,
    ensures
        first_index(a, c) < a.len(),
        a[first_index(a, c)] == c,
    decreases a.len(),
{
    if first_index(a.drop_last(), c) >= 0 {
        lemma_first_index_found(a.drop_last(), c);
        assert(a[first_index(a, c)] == a.drop_last()[first_index(a, c)]);
    }
}

/// Decoding the characters of in-range digits gives the digits back.
proof fn lemma_decode_digits_map(a: Seq<char>, ds: Seq<nat>)
    requires
        distinct(a),
        forall|i: int| 0 <= i < ds.len() ==> ds[i] < a.len(),
    ensures
        decode_digits(a, spell(a, ds)) == Ok::<Seq<nat>, char>(ds),
    decreases ds.len(),
{
    let s = spell(a, ds);
    if ds.len() > 0 {
        assert(s.drop_last() =~= spell(a, ds.drop_last()));
        assert forall|i: int| 0 <= i < ds.drop_last().len() implies ds.drop_last()[i] < a.len() by {
            assert(ds.drop_last()[i] == ds[i]);
        }
        assert(s.last() == a[ds.last() as int]);
        lemma_decode_digits_map(a, ds.drop_last());
        lemma_first_index_distinct(a, ds.last() as int);
        assert(ds.drop_last().push(ds.last()) =~= ds);
        assert(decode_digits(a, s.drop_last()) == Ok::<Seq<nat>, char>(ds.drop_last()));
        assert(first_index(a, s.last()) == ds.last() as int);
        assert(decode_digits(a, s) == Ok::<Seq<nat>, char>(ds.drop_last().push(ds.last())));
    } else {
        assert(s =~= Seq::<char>::empty());
        assert(ds =~= Seq::<nat>::empty());
    }
}

/// Every digit is below the base.
proof fn lemma_msd_digits_bound(n: nat, b: nat)
    requires
        b >= 2,
    ensures
        forall|i: int| 0 <= i < msd_digits(n, b).len() ==> msd_digits(n, b)[i] < b,
    decreases n,
{
    if n > 0 {
        lemma_div_below(n, b);
        lemma_msd_digits_bound(n / b, b);
        let p = msd_digits(n / b, b);
        assert forall|i: int| 0 <= i < msd_digits(n, b).len() implies msd_digits(n, b)[i] < b by {
            if i < p.len() {
                assert(msd_digits(n, b)[i] == p[i]);
            }
        }
    }
}

/// The digits of `n` spell `n`.
proof fn lemma_digits_value_msd(n: nat, b: nat)
    requires
        b >= 2,
    ensures
        digits_value(msd_digits(n, b), b) == n,
    decreases n,
{
    if n > 0 {
        lemma_div_below(n, b);
        lemma_digits_value_msd(n / b, b);
        let ds = msd_digits(n, b);
        assert(ds.drop_last() =~= msd_digits(n / b, b));
        lemma_fundamental_div_mod(n as int, b as int);
        assert((n / b) * b == b * (n / b)) by (nonlinear_arith);
    } else {
        assert(msd_digits(0, b) =~= Seq::<nat>::empty());
    }
}

/// The position of the first `c` in `chars`.
fn find_char(chars: &[char], c: char) -> (r: Option<usize>)
    ensures
        r is Some <==> first_index(chars@, c) >= 0,
        r is Some ==> r->0 as int == first_index(chars@, c) && r->0 < chars@.len(),
{
    let mut i: usize = 0;
    proof {
        assert(chars@.take(0) =~= Seq::<char>::empty());
    }
    while i < chars.len()
        invariant
            i <= chars@.len(),
            first_index(chars@.take(i as int), c) == -1,
        decreases chars@.len() - i,
    {
        proof {
            assert(chars@.take(i as int + 1).drop_last() =~= chars@.take(i as int));
        }
        if chars[i] == c {
            proof {
                lemma_first_index_prefix(chars@, i as int + 1, c);
            }
            return Some(i);
        }
        i = i + 1;
    }
    proof {
        assert(chars@.take(chars@.len() as int) =~= chars@);
    }
    None
}

/// Multiplies the big-endian number in `v` by `base` and adds `d`.
fn mul_add_in_place(v: &mut Vec<u8>, base: u16, d: u16)
    requires
        2 <= base <= 64,
        d < base,
        old(v)@.len() >= 1,
    ensures
        final(v)@.len() >= 1,
        be_value(final(v)@) == be_value(old(v)@) * (base as nat) + d as nat,
{
    let ghost orig = v@;
    let len = v.len();
    let mut carry: u16 = d;
    let mut j: usize = len;
    proof {
        assert(orig.subrange(len as int, len as int) =~= Seq::<u8>::empty());
        assert(v@.subrange(len as int, len as int) =~= Seq::<u8>::empty());
        assert(be_value(Seq::<u8>::empty()) == 0);
        assert(pow256(0) == 1);
        assert((len - j) as nat == 0nat);
        assert(pow256(0nat) == 1) by {
            reveal_with_fuel(pow256, 1);
        }
        assert(carry * pow256((len - j) as nat) == d);
        assert(be_value(orig.subrange(j as int, len as int)) * (base as nat) == 0);
    }
    while j > 0
        invariant
            2 <= base <= 64,
            j <= len,
            len == orig.len(),
            v@.len() == len,
            carry < base,
            forall|t: int| 0 <= t < j ==> v@[t] == orig[t],
            be_value(orig.subrange(j as int, len as int)) * (base as nat) + d as nat == carry
                * pow256((len - j) as nat) + be_value(v@.subrange(j as int, len as int)),
        decreases j,
    {
        j = j - 1;
        let x = v[j];
        assert(x as u16 * base <= 255 * 64) by (nonlinear_arith)
            requires
                x < 256,
                base <= 64,
        ;
        let temp: u16 = x as u16 * base + carry;
        let low: u16 = temp % 256;
        let high: u16 = temp / 256;
        assert(high < base) by {
            assert(temp < 256 * base) by (nonlinear_arith)
                requires
                    temp == x as u16 * base + carry,
                    x < 256,
                    carry < base,
            ;
        }
        let ghost before = v@;
        v.set(j, low as u8);
        proof {
            let p = pow256((len - j - 1) as nat);
            let vo = be_value(orig.subrange(j as int + 1, len as int));
            let vv = be_value(before.subrange(j as int + 1, len as int));
            assert(orig.subrange(j as int, len as int) =~= seq![x] + orig.subrange(
                j as int + 1,
                len as int,
            ));
            assert(v@.subrange(j as int, len as int) =~= seq![low as u8] + before.subrange(
                j as int + 1,
                len as int,
            ));
            lemma_be_value_cons(seq![x], orig.subrange(j as int + 1, len as int));
            lemma_be_value_cons(seq![low as u8], before.subrange(j as int + 1, len as int));
            lemma_be_value_single(x);
            lemma_be_value_single(low as u8);
            assert(pow256((len - j) as nat) == 256 * p);
            assert(temp == 256 * high + low);
            assert((x as nat * p + vo) * (base as nat) + d as nat == high as nat * (256 * p) + (
            low as nat * p + vv)) by (nonlinear_arith)
                requires
                    vo * (base as nat) + d as nat == carry as nat * p + vv,
                    temp == x as u16 * base + carry,
                    temp == 256 * high + low,
            ;
        }
        carry = high;
    }
    proof {
        assert(orig.subrange(0, len as int) =~= orig);
        assert(v@.subrange(0, len as int) =~= v@);
    }
    if carry > 0 {
        let ghost before = v@;
        v.insert(0, carry as u8);
        proof {
            assert(v@ =~= seq![carry as u8] + before);
            lemma_be_value_cons(seq![carry as u8], before);
            lemma_be_value_single(carry as u8);
        }
    }
}

/// A prefix that already holds `c` fixes its first position.
proof fn lemma_first_index_prefix(a: Seq<char>, j: int, c: char)
    requires
        0 <= j <= a.len(),
        first_index(a.take(j), c) >= 0,
    ensures
        first_index(a, c) == first_index(a.take(j), c),
    decreases a.len(),
{
    if j == a.len() {
        assert(a.take(j) =~= a);
    } else {
        assert(a.drop_last().take(j) =~= a.take(j));
        lemma_first_index_prefix(a.drop_last(), j, c);
    }
}

/// A prefix with a character outside the alphabet decides the error.
proof fn lemma_decode_digits_err_prefix(a: Seq<char>, s: Seq<char>, j: int)
    requires
        0 <= j <= s.len(),
        decode_digits(a, s.take(j)) is Err,
    ensures
        decode_digits(a, s) == decode_digits(a, s.take(j)),
    decreases s.len(),
{
    if j == s.len() {
        assert(s.take(j) =~= s);
    } else {
        assert(s.drop_last().take(j) =~= s.take(j));
        lemma_decode_digits_err_prefix(a, s.drop_last(), j);
    }
}

/// A byte string without leading zeros is the shortest one of its number.
pub proof fn lemma_minimal_bytes_of(s: Seq<u8>)
    requires
        is_minimal(s),
    ensures
        s == bytes_of(be_value(s)),
    decreases s.len(),
{
    if s.len() == 1 {
        assert(s.drop_last() =~= Seq::<u8>::empty());
        assert(be_value(Seq::<u8>::empty()) == 0);
        assert(s =~= seq![s[0]]);
    } else {
        let t = s.drop_last();
        assert(t[0] == s[0]);
        lemma_be_value_zero(t);
        assert(be_value(t) >= 1);
        lemma_minimal_bytes_of(t);
        let v = be_value(s);
        assert(v == be_value(t) * 256 + s.last() as nat);
        assert(v >= 256);
        assert(v / 256 == be_value(t));
        assert(v % 256 == s.last() as nat);
        assert(s =~= t.push(s.last()));
    }
}

fn slice_to_vec_u8(s: &[u8]) -> (r: Vec<u8>)
    ensures
        r@ == s@,
{
    let mut r: Vec<u8> = Vec::new();
    let mut i: usize = 0;
    while i < s.len()
        invariant
            i <= s@.len(),
            r@ == s@.subrange(0, i as int),
        decreases s@.len() - i,
    {
        r.push(s[i]);
        i = i + 1;
        proof {
            assert(r@ =~= s@.subrange(0, i as int));
        }
    }
    proof {
        assert(r@ =~= s@);
    }
    r
}

/// Whether every byte of `v` is zero, that is, whether it spells zero.
fn is_zero(v: &Vec<u8>) -> (r: bool)
    ensures
        r == (be_value(v@) == 0),
{
    proof {
        lemma_be_value_zero(v@);
    }
    let mut i: usize = 0;
    while i < v.len()
        invariant
            i <= v@.len(),
            forall|k: int| 0 <= k < i ==> v@[k] == 0,
        decreases v@.len() - i,
    {
        if v[i] != 0 {
            assert(v@[i as int] != 0);
            proof {
                lemma_be_value_zero(v@);
            }
            return false;
        }
        i = i + 1;
    }
    true
}

/// Divides the big-endian number in `digits` by `base` in place and returns
/// the remainder.
fn divide_in_place(digits: &mut Vec<u8>, base: u16) -> (carry: u16)
    requires
        2 <= base <= 64,
    ensures
        final(digits)@.len() == old(digits)@.len(),
        carry < base,
        be_value(final(digits)@) == be_value(old(digits)@) / (base as nat),
        carry as nat == be_value(old(digits)@) % (base as nat),
{
    let ghost orig = digits@;
    let mut carry: u16 = 0;
    let mut i: usize = 0;
    proof {
        assert(orig.take(0) =~= Seq::<u8>::empty());
        assert(digits@.take(0) =~= Seq::<u8>::empty());
        assert(be_value(Seq::<u8>::empty()) == 0);
    }
    while i < digits.len()
        invariant
            2 <= base <= 64,
            digits@.len() == orig.len(),
            i <= orig.len(),
            carry < base,
            forall|j: int| i <= j < orig.len() ==> digits@[j] == orig[j],
            be_value(orig.take(i as int)) == be_value(digits@.take(i as int)) * (base as nat)
                + carry as nat,
        decreases orig.len() - i,
    {
        let d = digits[i];
        let temp: u16 = carry * 256 + d as u16;
        let q: u16 = temp / base;
        let r: u16 = temp % base;
        assert(q < 256) by {
            assert(temp < base * 256) by (nonlinear_arith)
                requires
                    temp == carry * 256 + d as u16,
                    carry < base,
                    d < 256,
            ;
            lemma_fundamental_div_mod(temp as int, base as int);
            assert(q < 256) by (nonlinear_arith)
                requires
                    temp < base * 256,
                    temp == base * q + r,
                    0 <= r,
                    base > 0,
            ;
        }
        let ghost before = digits@;
        digits.set(i, q as u8);
        proof {
            lemma_fundamental_div_mod(temp as int, base as int);
            lemma_be_value_take(orig, i as int);
            lemma_be_value_take(digits@, i as int);
            assert(digits@.take(i as int) =~= before.take(i as int));
            let pv = be_value(digits@.take(i as int));
            assert(be_value(orig.take(i as int + 1)) == be_value(digits@.take(i as int + 1))
                * (base as nat) + r as nat) by (nonlinear_arith)
                requires
                    be_value(orig.take(i as int + 1)) == be_value(orig.take(i as int)) * 256
                        + d as nat,
                    be_value(orig.take(i as int)) == pv * (base as nat) + carry as nat,
                    be_value(digits@.take(i as int + 1)) == pv * 256 + q as nat,
                    temp == carry * 256 + d as u16,
                    temp == base * q + r,
            ;
        }
        carry = r;
        i = i + 1;
    }
    proof {
        assert(orig.take(orig.len() as int) =~= orig);
        assert(digits@.take(digits@.len() as int) =~= digits@);
        lemma_fundamental_div_mod_converse(
            be_value(orig) as int,
            base as int,
            be_value(digits@) as int,
            carry as int,
        );
    }
    carry
}

/// Removes leading zero bytes, keeping at least one byte.
fn strip_leading_zeros(digits: &mut Vec<u8>)
    requires
        old(digits)@.len() >= 1,
    ensures
        final(digits)@.len() >= 1,
        be_value(final(digits)@) == be_value(old(digits)@),
        is_minimal(final(digits)@),
{
    while digits.len() > 1 && digits[0] == 0
        invariant
            digits@.len() >= 1,
            be_value(digits@) == be_value(old(digits)@),
        decreases digits@.len(),
    {
        let ghost before = digits@;
        digits.remove(0);
        proof {
            lemma_be_value_cons(seq![0u8], digits@);
            assert(before =~= seq![0u8] + digits@);
            lemma_be_value_single(0u8);
        }
    }
}

/// The last digit produced when dividing by the base.
proof fn lemma_msd_digits_step(v: nat, b: nat)
    requires
        v > 0,
        b >= 2,
    ensures
        msd_digits(v, b) == msd_digits(v / b, b).push(v % b),
{
}

/// A number is zero exactly when all its bytes are.
pub proof fn lemma_be_value_zero(s: Seq<u8>)
    ensures
        (be_value(s) == 0) <==> (forall|k: int| 0 <= k < s.len() ==> s[k] == 0),
    decreases s.len(),
{
    if s.len() > 0 {
        lemma_be_value_zero(s.drop_last());
        if be_value(s) == 0 {
            assert forall|k: int| 0 <= k < s.len() implies s[k] == 0 by {
                if k < s.len() - 1 {
                    assert(s.drop_last()[k] == s[k]);
                }
            }
        } else {
            if forall|k: int| 0 <= k < s.len() ==> s[k] == 0 {
                assert forall|k: int| 0 <= k < s.drop_last().len() implies s.drop_last()[k]
                    == 0 by {
                    assert(s.drop_last()[k] == s[k]);
                }
            }
        }
    }
}

/// Extending a prefix by one byte.
proof fn lemma_be_value_take(s: Seq<u8>, i: int)
    requires
        0 <= i < s.len(),
    ensures
        be_value(s.take(i + 1)) == be_value(s.take(i)) * 256 + s[i] as nat,
{
    assert(s.take(i + 1).drop_last() =~= s.take(i));
}

/// A single byte spells itself.
pub proof fn lemma_be_value_single(x: u8)
    ensures
        be_value(seq![x]) == x as nat,
{
    assert(seq![x].drop_last() =~= Seq::<u8>::empty());
    assert(be_value(Seq::<u8>::empty()) == 0);
    assert(seq![x].last() == x);
}

/// The value of a concatenation.
pub proof fn lemma_be_value_cons(a: Seq<u8>, s: Seq<u8>)
    ensures
        be_value(a + s) == be_value(a) * pow256(s.len()) + be_value(s),
    decreases s.len(),
{
    if s.len() == 0 {
        assert(a + s =~= a);
        assert(pow256(0) == 1);
    } else {
        lemma_be_value_cons(a, s.drop_last());
        assert((a + s).drop_last() =~= a + s.drop_last());
        assert((a + s).last() == s.last());
        let p = pow256(s.drop_last().len());
        let va = be_value(a);
        let vs = be_value(s.drop_last());
        assert(pow256(s.len()) == 256 * p);
        assert(be_value(a + s) == (va * p + vs) * 256 + s.last() as nat);
        assert(be_value(s) == vs * 256 + s.last() as nat);
        assert((va * p + vs) * 256 + s.last() as nat == va * (256 * p) + (vs * 256
            + s.last() as nat)) by (nonlinear_arith);
    }
}

} // verus!
