use vstd::prelude::*;

verus! {

/// The length in bytes of the UTF-8 text of `s` (as `str::len` gives it).
pub open spec fn byte_len(s: Seq<char>) -> nat {
    (vstd::utf8::encode_utf8(s).len() as usize) as nat
}

/// The first `n` characters of `s`, or all of them when `s` is shorter.
pub open spec fn take_chars(s: Seq<char>, n: nat) -> Seq<char> {
    if s.len() <= n {
        s
    } else {
        s.take(n as int)
    }
}

/// Shortens `s` to at most `max_len` characters' worth of display: a string whose
/// byte length fits is returned as it is; otherwise its first `max_len - 2`
/// characters are kept and `...` is appended (or only the first `max_len`
/// characters when `max_len < 2`).
pub open spec fn truncate_tail_spec(s: Seq<char>, byte_len: nat, max_len: nat) -> Seq<char> {
    if byte_len <= max_len {
        s
    } else if max_len < 2 {
        take_chars(s, max_len)
    } else {
        take_chars(s, (max_len - 2) as nat) + seq!['.', '.', '.']
    }
}

/// Whether `a` and `b` hold the same characters.
pub fn str_eq(a: &str, b: &str) -> (r: bool)
    ensures
        r == (a@ == b@),
{
    let x = a.to_owned();
    let y = b.to_owned();
    x == y
}

/// `a` followed by `b`.
pub fn concat(a: &str, b: &str) -> (r: String)
    ensures
        r@ == a@ + b@,
{
    let mut s = a.to_owned();
    s.append(b);
    s
}

pub fn truncate_tail(s: &str, max_len: usize) -> (r: String)
    ensures
        r@ == truncate_tail_spec(s@, byte_len(s@), max_len as nat),
{
    if s.len() <= max_len {
        return s.to_owned();
    }
    let take: usize = if max_len < 2 { max_len } else { max_len - 2 };
    let n = s.unicode_len();
    let end: usize = if n < take { n } else { take };
    let mut result = s.substring_char(0, end).to_owned();
    if max_len >= 2 {
        result.append("...");
        proof {
            reveal_strlit("...");
        }
    }
    proof {
        assert(take_chars(s@, take as nat) =~= s@.subrange(0, end as int));
    }
    result
}

/// The decimal digit character of `d`.
pub open spec fn digit_char(d: nat) -> char {
    ((d + 48) as u32) as char
}

/// The decimal text of `n`, without leading zeros.
pub open spec fn decimal(n: nat) -> Seq<char>
    decreases n,
{
    if n < 10 {
        seq![digit_char(n)]
    } else {
        decimal(n / 10).push(digit_char(n % 10))
    }
}

fn digit(d: u8) -> (r: char)
    requires
        d < 10,
    ensures
        r == digit_char(d as nat),
{
    match d {
        0 => '0',
        1 => '1',
        2 => '2',
        3 => '3',
        4 => '4',
        5 => '5',
        6 => '6',
        7 => '7',
        8 => '8',
        _ => '9',
    }
}

/// The decimal text of `n`.
pub fn u128_to_string(n: u128) -> (r: String)
    ensures
        r@ == decimal(n as nat),
{
    // digits, least significant first
    let mut ds: Vec<char> = Vec::new();
    let mut m: u128 = n;
    let ghost mut rest: Seq<char> = seq![];
    proof {
        assert(decimal(n as nat) == decimal(m as nat) + rest);
    }
    loop
        invariant_except_break
            decimal(n as nat) == decimal(m as nat) + ds@.reverse(),
        ensures
            decimal(n as nat) == ds@.reverse(),
        decreases m,
    {
        if m < 10 {
            let ghost before = ds@;
            ds.push(digit(m as u8));
            proof {
                assert(ds@.reverse() =~= seq![digit_char(m as nat)] + before.reverse());
                assert(decimal(m as nat) == seq![digit_char(m as nat)]);
            }
            break;
        }
        let ghost before = ds@;
        ds.push(digit((m % 10) as u8));
        proof {
            assert(ds@.reverse() =~= seq![digit_char((m % 10) as nat)] + before.reverse());
            assert(decimal(m as nat) == decimal((m / 10) as nat).push(digit_char((m % 10) as nat)));
            assert(decimal((m / 10) as nat).push(digit_char((m % 10) as nat)) + before.reverse()
                =~= decimal((m / 10) as nat) + ds@.reverse());
        }
        m = m / 10;
    }
    let mut s = String::new();
    let mut i: usize = ds.len();
    while i > 0
        invariant
            i <= ds@.len(),
            s@ =~= ds@.reverse().subrange(0, (ds@.len() - i) as int),
        decreases i,
    {
        i = i - 1;
        crate::basex::push_char(&mut s, ds[i]);
        proof {
            assert(ds@.reverse().subrange(0, (ds@.len() - i) as int) =~= ds@.reverse().subrange(
                0,
                (ds@.len() - i - 1) as int,
            ).push(ds@[i as int]));
        }
    }
    proof {
        assert(ds@.reverse().subrange(0, ds@.len() as int) =~= ds@.reverse());
    }
    s
}

/// `parts` with `sep` between each two.
pub open spec fn join_spec(parts: Seq<Seq<char>>, sep: Seq<char>) -> Seq<char>
    decreases parts.len(),
{
    if parts.len() == 0 {
        Seq::empty()
    } else if parts.len() == 1 {
        parts[0]
    } else {
        join_spec(parts.drop_last(), sep) + sep + parts.last()
    }
}

/// The characters of each string.
pub open spec fn views(v: Seq<String>) -> Seq<Seq<char>> {
    v.map_values(|s: String| s@)
}

/// `parts` with `sep` between each two.
pub fn join(parts: &Vec<String>, sep: &str) -> (r: String)
    ensures
        r@ == join_spec(views(parts@), sep@),
{
    let mut s = String::new();
    let mut i: usize = 0;
    while i < parts.len()
        invariant
            i <= parts@.len(),
            s@ == join_spec(views(parts@.subrange(0, i as int)), sep@),
        decreases parts@.len() - i,
    {
        proof {
            assert(views(parts@.subrange(0, i as int + 1)).drop_last() =~= views(
                parts@.subrange(0, i as int),
            ));
        }
        if i > 0 {
            s.append(sep);
        } else {
            proof {
                assert(views(parts@.subrange(0, 0)) =~= Seq::<Seq<char>>::empty());
            }
        }
        s.append(parts[i].as_str());
        i = i + 1;
    }
    proof {
        assert(parts@.subrange(0, parts@.len() as int) =~= parts@);
    }
    s
}

/// `s` with each occurrence of `pat`, scanning left to right, replaced by
/// `with`.
pub open spec fn replace_spec(s: Seq<char>, pat: Seq<char>, with: Seq<char>) -> Seq<char>
    decreases s.len(),
{
    if pat.len() == 0 || s.len() < pat.len() {
        s
    } else if s.take(pat.len() as int) == pat {
        with + replace_spec(s.skip(pat.len() as int), pat, with)
    } else {
        seq![s[0]] + replace_spec(s.skip(1), pat, with)
    }
}

fn chars_vec(s: &str) -> (r: Vec<char>)
    ensures
        r@ == s@,
{
    let n = s.unicode_len();
    let mut r: Vec<char> = Vec::new();
    let mut i: usize = 0;
    while i < n
        invariant
            n == s@.len(),
            i <= n,
            r@ == s@.subrange(0, i as int),
        decreases n - i,
    {
        r.push(s.get_char(i));
        i = i + 1;
        proof {
            assert(r@ =~= s@.subrange(0, i as int));
        }
    }
    proof {
        assert(r@ =~= s@);
    }
    r
}

fn matches_at(s: &Vec<char>, i: usize, pat: &Vec<char>) -> (r: bool)
    requires
        i + pat@.len() <= s@.len(),
    ensures
        r == (s@.subrange(i as int, i + pat@.len()) == pat@),
{
    let mut k: usize = 0;
    let sl = s.len();
    while k < pat.len()
        invariant
            i + pat@.len() <= s@.len(),
            s@.len() == sl,
            k <= pat@.len(),
            forall|j: int| 0 <= j < k ==> s@[i + j] == pat@[j],
        decreases pat@.len() - k,
    {
        if s[i + k] != pat[k] {
            proof {
                assert(s@.subrange(i as int, i + pat@.len())[k as int] != pat@[k as int]);
            }
            return false;
        }
        k = k + 1;
    }
    proof {
        assert(s@.subrange(i as int, i + pat@.len()) =~= pat@);
    }
    true
}

/// `s` with each occurrence of `pat` replaced by `with`.
pub fn replace(s: &str, pat: &str, with: &str) -> (r: String)
    ensures
        r@ == replace_spec(s@, pat@, with@),
{
    let cs = chars_vec(s);
    let ps = chars_vec(pat);
    let n = cs.len();
    let m = ps.len();
    let mut out = String::new();
    let mut i: usize = 0;
    proof {
        assert(s@.skip(0) =~= s@);
    }
    while i < n && m > 0 && n - i >= m
        invariant
            cs@ == s@,
            ps@ == pat@,
            n == s@.len(),
            m == pat@.len(),
            i <= n,
            out@ + replace_spec(s@.skip(i as int), pat@, with@) == replace_spec(s@, pat@, with@),
        decreases n - i,
    {
        let ghost rest = s@.skip(i as int);
        if matches_at(&cs, i, &ps) {
            proof {
                assert(rest.take(m as int) =~= s@.subrange(i as int, i + m));
                assert(rest.skip(m as int) =~= s@.skip(i + m));
                assert(out@ + with@ + replace_spec(s@.skip(i + m), pat@, with@) =~= out@ + (with@
                    + replace_spec(rest.skip(m as int), pat@, with@)));
            }
            out.append(with);
            i = i + m;
        } else {
            proof {
                assert(rest.take(m as int) =~= s@.subrange(i as int, i + m));
                assert(rest.skip(1) =~= s@.skip(i + 1));
                assert(rest[0] == cs@[i as int]);
                assert(out@.push(cs@[i as int]) + replace_spec(s@.skip(i + 1), pat@, with@) =~= out@
                    + (seq![rest[0]] + replace_spec(rest.skip(1), pat@, with@)));
            }
            crate::basex::push_char(&mut out, cs[i]);
            i = i + 1;
        }
    }
    // what is left is shorter than the pattern, and stays as it is
    proof {
        assert(replace_spec(s@.skip(i as int), pat@, with@) == s@.skip(i as int));
    }
    while i < n
        invariant
            cs@ == s@,
            n == s@.len(),
            i <= n,
            out@ + s@.skip(i as int) == replace_spec(s@, pat@, with@),
        decreases n - i,
    {
        proof {
            assert(s@.skip(i as int) =~= seq![cs@[i as int]] + s@.skip(i + 1));
        }
        crate::basex::push_char(&mut out, cs[i]);
        i = i + 1;
    }
    proof {
        assert(s@.skip(n as int) =~= Seq::<char>::empty());
    }
    out
}

/// Whether `c` is white space in Unicode's sense (`char::is_whitespace`).
pub open spec fn is_space(c: char) -> bool {
    let u = c as u32;
    (0x9 <= u && u <= 0xd) || u == 0x20 || u == 0x85 || u == 0xa0 || u == 0x1680 || (0x2000 <= u
        && u <= 0x200a) || u == 0x2028 || u == 0x2029 || u == 0x202f || u == 0x205f || u == 0x3000
}

/// Whether `c` is white space in Unicode's sense.
pub fn is_space_char(c: char) -> (r: bool)
    ensures
        r == is_space(c),
{
    space(c)
}

fn space(c: char) -> (r: bool)
    ensures
        r == is_space(c),
{
    let u = c as u32;
    (0x9 <= u && u <= 0xd) || u == 0x20 || u == 0x85 || u == 0xa0 || u == 0x1680 || (0x2000 <= u
        && u <= 0x200a) || u == 0x2028 || u == 0x2029 || u == 0x202f || u == 0x205f || u == 0x3000
}

/// `s` without white space at either end.
pub open spec fn trim_spec(s: Seq<char>) -> Seq<char> {
    let lo = choose_start(s, 0);
    let hi = choose_end(s, s.len() as int);
    if lo >= hi {
        Seq::empty()
    } else {
        s.subrange(lo, hi)
    }
}

/// The first position from `i` on that is not white space (or the end).
pub open spec fn choose_start(s: Seq<char>, i: int) -> int
    decreases s.len() - i,
{
    if i < 0 || i >= s.len() {
        s.len() as int
    } else if is_space(s[i]) {
        choose_start(s, i + 1)
    } else {
        i
    }
}

/// The end of the last character before `j` that is not white space (or 0).
pub open spec fn choose_end(s: Seq<char>, j: int) -> int
    decreases j,
{
    if j <= 0 || j > s.len() {
        0
    } else if is_space(s[j - 1]) {
        choose_end(s, j - 1)
    } else {
        j
    }
}

/// `s` without white space at either end.
pub fn trim(s: &str) -> (r: String)
    ensures
        r@ == trim_spec(s@),
{
    let n = s.unicode_len();
    let mut lo: usize = 0;
    while lo < n && space(s.get_char(lo))
        invariant
            n == s@.len(),
            lo <= n,
            choose_start(s@, lo as int) == choose_start(s@, 0),
        decreases n - lo,
    {
        lo = lo + 1;
    }
    let mut hi: usize = n;
    while hi > 0 && space(s.get_char(hi - 1))
        invariant
            n == s@.len(),
            hi <= n,
            choose_end(s@, hi as int) == choose_end(s@, n as int),
        decreases hi,
    {
        hi = hi - 1;
    }
    if lo >= hi {
        return String::new();
    }
    s.substring_char(lo, hi).to_owned()
}

} // verus!
