//! Dice rolls: the `<face>d<times>[k|q<n>]` expression, its checks, and the
//! reply that sums the rolls (keeping the `n` highest with `k`, the `n`
//! lowest with `q`).
use vstd::prelude::*;

use crate::onebot::{decimal_value, is_digit, random_in};
use crate::text::{decimal, join, join_spec, u128_to_string, views};
use crate::types::CommonSegment;

verus! {

broadcast use vstd::seq_lib::group_to_multiset_ensures;

/// A parsed dice expression.
#[derive(Debug, Clone, Copy)]
pub struct Dice {
    pub face: u64,
    pub times: usize,
    /// Whether to keep the highest rolls, and how many.
    pub select: Option<(bool, usize)>,
}

/// Why a dice expression is refused.
#[derive(Debug, Clone, Copy, PartialEq, Eq, Structural)]
pub enum DiceVerify {
    Face,
    Times,
    Select,
    SelectRange,
}

impl DiceVerify {
    /// The message shown to a chat user.
    pub fn message(&self) -> (r: String)
        ensures
            r@ == verify_message(*self),
    {
        match self {
            DiceVerify::Face => "面数必须大于 0 喵".to_owned(),
            DiceVerify::Times => "次数必须大于 0 喵".to_owned(),
            DiceVerify::Select => "选择必须大于 0 喵".to_owned(),
            DiceVerify::SelectRange => "选择必须小于等于次数喵".to_owned(),
        }
    }
}

/// The message of a refusal.
pub open spec fn verify_message(e: DiceVerify) -> Seq<char> {
    match e {
        DiceVerify::Face => "面数必须大于 0 喵"@,
        DiceVerify::Times => "次数必须大于 0 喵"@,
        DiceVerify::Select => "选择必须大于 0 喵"@,
        DiceVerify::SelectRange => "选择必须小于等于次数喵"@,
    }
}

/// The dice expression of a message whose first segment is its text.
pub open spec fn message_dice(msg: Seq<CommonSegment>) -> Option<Dice> {
    if msg.len() > 0 && msg[0] is Text {
        parse_spec(msg[0]->Text_0@)
    } else {
        None
    }
}

/// The first position from `i` on that is not a digit, or the end.
pub open spec fn digits_end(s: Seq<char>, i: int) -> int
    decreases s.len() - i,
{
    if i < 0 || i >= s.len() || !is_digit(s[i]) {
        if i < 0 { 0 } else if i > s.len() { s.len() as int } else { i }
    } else {
        digits_end(s, i + 1)
    }
}

/// A count after `k`, `q` or `d`: its digits, or one when there are none;
/// digits that overflow make the whole expression fail.
pub open spec fn count_at(s: Seq<char>, i: int) -> Option<nat> {
    let e = digits_end(s, i);
    if e > i {
        if decimal_value(s.subrange(i, e)) <= usize::MAX {
            Some(decimal_value(s.subrange(i, e)))
        } else {
            None
        }
    } else {
        Some(1)
    }
}

/// The dice expression that the whole of `s` spells, if any.
pub open spec fn parse_spec(s: Seq<char>) -> Option<Dice> {
    let e1 = digits_end(s, 0);
    if e1 == 0 || decimal_value(s.subrange(0, e1)) > u64::MAX || e1 >= s.len() || s[e1] != 'd' {
        None
    } else {
        let e2 = digits_end(s, e1 + 1);
        match count_at(s, e1 + 1) {
            None => None,
            Some(times) => if e2 == s.len() {
                Some(
                    Dice {
                        face: decimal_value(s.subrange(0, e1)) as u64,
                        times: times as usize,
                        select: None,
                    },
                )
            } else if s[e2] != 'k' && s[e2] != 'q' {
                None
            } else {
                let e3 = digits_end(s, e2 + 1);
                match count_at(s, e2 + 1) {
                    None => None,
                    Some(n) => if e3 == s.len() {
                        Some(
                            Dice {
                                face: decimal_value(s.subrange(0, e1)) as u64,
                                times: times as usize,
                                select: Some((s[e2] == 'k', n as usize)),
                            },
                        )
                    } else {
                        None
                    },
                }
            },
        }
    }
}

/// Reads the digits of `s` from `from`: where they end, and their value if
/// it fits in `u64`.
fn read_number(s: &Vec<char>, from: usize) -> (r: (usize, Option<u64>))
    requires
        from <= s@.len(),
    ensures
        r.0 as int == digits_end(s@, from as int),
        r.1 is Some <==> decimal_value(s@.subrange(from as int, r.0 as int)) <= u64::MAX,
        r.1 matches Some(v) ==> v as nat == decimal_value(s@.subrange(from as int, r.0 as int)),
{
    let mut i: usize = from;
    let mut v: Option<u64> = Some(0);
    proof {
        assert(s@.subrange(from as int, from as int) =~= Seq::<char>::empty());
    }
    while i < s.len() && '0' <= s[i] && s[i] <= '9'
        invariant
            from <= i <= s@.len(),
            digits_end(s@, i as int) == digits_end(s@, from as int),
            v is Some <==> decimal_value(s@.subrange(from as int, i as int)) <= u64::MAX,
            v matches Some(x) ==> x as nat == decimal_value(s@.subrange(from as int, i as int)),
        decreases s@.len() - i,
    {
        let d = (s[i] as u32 - '0' as u32) as u64;
        proof {
            assert(s@.subrange(from as int, i + 1).drop_last() =~= s@.subrange(from as int, i as int));
            lemma_decimal_monotone(s@.subrange(from as int, i + 1));
        }
        v = match v {
            Some(x) => if x > (u64::MAX - d) / 10 {
                None
            } else {
                Some(x * 10 + d)
            },
            None => None,
        };
        i = i + 1;
    }
    (i, v)
}

/// Where a run of digits ends lies between its start and the end.
proof fn lemma_digits_end_bounds(s: Seq<char>, i: int)
    requires
        0 <= i <= s.len(),
    ensures
        i <= digits_end(s, i) <= s.len(),
    decreases s.len() - i,
{
    if i < s.len() && is_digit(s[i]) {
        lemma_digits_end_bounds(s, i + 1);
    }
}

/// Appending a digit never makes a number smaller.
proof fn lemma_decimal_monotone(s: Seq<char>)
    requires
        s.len() > 0,
    ensures
        decimal_value(s) >= decimal_value(s.drop_last()),
{
}

/// Reads a count at `from`.
fn read_count(s: &Vec<char>, from: usize) -> (r: (usize, Option<usize>))
    requires
        from <= s@.len(),
    ensures
        r.0 as int == digits_end(s@, from as int),
        r.1 is Some <==> count_at(s@, from as int) is Some,
        r.1 matches Some(v) ==> count_at(s@, from as int) == Some(v as nat),
{
    let (e, v) = read_number(s, from);
    if e == from {
        return (e, Some(1));
    }
    proof {
        lemma_digits_end_bounds(s@, from as int);
        assert(usize::MAX <= u64::MAX);
    }
    match v {
        Some(x) => if x <= usize::MAX as u64 {
            (e, Some(x as usize))
        } else {
            (e, None)
        },
        None => (e, None),
    }
}

/// Parses a whole text as a dice expression.
pub fn parse_expr(text: &str) -> (r: Option<Dice>)
    ensures
        r == parse_spec(text@),
{
    let n = text.unicode_len();
    let mut s: Vec<char> = Vec::new();
    let mut i: usize = 0;
    while i < n
        invariant
            n == text@.len(),
            i <= n,
            s@ == text@.subrange(0, i as int),
        decreases n - i,
    {
        s.push(text.get_char(i));
        i = i + 1;
        proof {
            assert(s@ =~= text@.subrange(0, i as int));
        }
    }
    proof {
        assert(s@ =~= text@);
    }
    let (e1, face) = read_number(&s, 0);
    if e1 == 0 || face.is_none() || e1 >= n || s[e1] != 'd' {
        return None;
    }
    let face = face.unwrap();
    let (e2, times) = read_count(&s, e1 + 1);
    proof {
        lemma_digits_end_bounds(s@, e1 + 1);
    }
    let times = match times {
        None => return None,
        Some(t) => t,
    };
    if e2 == n {
        return Some(Dice { face, times, select: None });
    }
    if s[e2] != 'k' && s[e2] != 'q' {
        return None;
    }
    let high = s[e2] == 'k';
    let (e3, count) = read_count(&s, e2 + 1);
    proof {
        lemma_digits_end_bounds(s@, e2 + 1);
    }
    let count = match count {
        None => return None,
        Some(c) => c,
    };
    if e3 != n {
        return None;
    }
    Some(Dice { face, times, select: Some((high, count)) })
}

/// The dice expression of a message whose first segment is its text.
pub fn parse_dice(msg: &Vec<CommonSegment>) -> (r: Option<Dice>)
    ensures
        msg@.len() > 0 ==> (msg@[0] matches CommonSegment::Text(t) ==> r == parse_spec(t@)),
        !(msg@.len() > 0 && msg@[0] is Text) ==> r is None,
{
    if msg.len() == 0 {
        return None;
    }
    match &msg[0] {
        CommonSegment::Text(t) => parse_expr(t.as_str()),
        _ => None,
    }
}

/// What `verify` returns.
pub open spec fn verify_spec(d: Dice) -> Result<(), DiceVerify> {
    if d.face == 0 {
        Err(DiceVerify::Face)
    } else if d.times == 0 {
        Err(DiceVerify::Times)
    } else {
        match d.select {
            Some((_, n)) => if n == 0 {
                Err(DiceVerify::Select)
            } else if n > d.times {
                Err(DiceVerify::SelectRange)
            } else {
                Ok(())
            },
            None => Ok(()),
        }
    }
}

impl Dice {
    /// Checks that the dice can be rolled: faces and rolls are positive, and
    /// the rolls kept are between one and all of them.
    pub fn verify(&self) -> (r: Result<(), DiceVerify>)
        ensures
            r == verify_spec(*self),
    {
        if self.face == 0 {
            Err(DiceVerify::Face)
        } else if self.times == 0 {
            Err(DiceVerify::Times)
        } else {
            match self.select {
                Some((_, n)) => if n == 0 {
                    Err(DiceVerify::Select)
                } else if n > self.times {
                    Err(DiceVerify::SelectRange)
                } else {
                    Ok(())
                },
                None => Ok(()),
            }
        }
    }

    /// The expression as text.
    pub fn describe(&self) -> (r: String)
        ensures
            r@ == decimal(self.face as nat) + "d"@ + decimal(self.times as nat) + match self.select {
                Some((high, n)) => (if high {
                    "k"@
                } else {
                    "q"@
                }) + decimal(n as nat),
                None => Seq::<char>::empty(),
            },
    {
        let mut s = u128_to_string(self.face as u128);
        s.append("d");
        s.append(u128_to_string(self.times as u128).as_str());
        match self.select {
            Some((high, n)) => {
                s.append(if high { "k" } else { "q" });
                s.append(u128_to_string(n as u128).as_str());
            },
            None => {
                proof {
                    assert(s@ + Seq::<char>::empty() =~= s@);
                }
            },
        }
        s
    }
}

/// Rolls `times` dice of `face` faces.
pub fn roll(face: u64, times: usize) -> (r: Vec<u64>)
    requires
        face >= 1,
    ensures
        r@.len() == times,
        forall|i: int| 0 <= i < r@.len() ==> 1 <= #[trigger] r@[i] <= face,
{
    let mut r: Vec<u64> = Vec::new();
    let mut i: usize = 0;
    while i < times
        invariant
            face >= 1,
            i <= times,
            r@.len() == i,
            forall|j: int| 0 <= j < r@.len() ==> 1 <= #[trigger] r@[j] <= face,
        decreases times - i,
    {
        r.push(random_in(1, face));
        i = i + 1;
    }
    r
}

/// Whether `s` is in ascending order.
pub open spec fn sorted(s: Seq<u64>) -> bool {
    forall|i: int, j: int| 0 <= i <= j < s.len() ==> s[i] <= s[j]
}

/// The rolls in ascending order.
pub fn sort_rolls(v: &Vec<u64>) -> (r: Vec<u64>)
    ensures
        sorted(r@),
        r@.to_multiset() == v@.to_multiset(),
{
    let mut r: Vec<u64> = Vec::new();
    let mut i: usize = 0;
    proof {
        assert(v@.take(0) =~= Seq::<u64>::empty());
    }
    while i < v.len()
        invariant
            i <= v@.len(),
            sorted(r@),
            r@.to_multiset() == v@.take(i as int).to_multiset(),
        decreases v@.len() - i,
    {
        let x = v[i];
        let mut p: usize = 0;
        while p < r.len() && r[p] <= x
            invariant
                p <= r@.len(),
                forall|j: int| 0 <= j < p ==> r@[j] <= x,
            decreases r@.len() - p,
        {
            p = p + 1;
        }
        let ghost before = r@;
        r.insert(p, x);
        proof {
            vstd::seq_lib::to_multiset_insert(before, p as int, x);
            assert(v@.take(i as int + 1) =~= v@.take(i as int).push(x));
            vstd::seq_lib::to_multiset_build(v@.take(i as int), x);
            assert forall|a: int, b: int| 0 <= a <= b < r@.len() implies r@[a] <= r@[b] by {
                if a < p as int && b > p as int {
                    assert(r@[a] == before[a]);
                    assert(r@[b] == before[b - 1]);
                } else if a == p as int && b > p as int {
                    assert(r@[b] == before[b - 1]);
                    assert(before[p as int] > x);
                } else if b == p as int && a < p as int {
                    assert(r@[a] == before[a]);
                } else if a > p as int {
                    assert(r@[a] == before[a - 1]);
                    assert(r@[b] == before[b - 1]);
                } else if b < p as int {
                    assert(r@[a] == before[a]);
                    assert(r@[b] == before[b]);
                }
            }
        }
        i = i + 1;
    }
    proof {
        assert(v@.take(v@.len() as int) =~= v@);
    }
    r
}

/// The decimal texts of the rolls.
pub open spec fn texts(s: Seq<u64>) -> Seq<Seq<char>> {
    s.map_values(|x: u64| decimal(x as nat))
}

/// The sum of the rolls.
pub open spec fn total(s: Seq<u64>) -> nat
    decreases s.len(),
{
    if s.len() == 0 {
        0
    } else {
        total(s.drop_last()) + s.last() as nat
    }
}

/// The rolls that count, of the sorted rolls `q`.
pub open spec fn kept(q: Seq<u64>, select: Option<(bool, usize)>) -> Seq<u64> {
    match select {
        Some((true, n)) => q.skip(q.len() - n),
        Some((false, n)) => q.take(n as int),
        None => q,
    }
}

/// The reply for the sorted rolls `q`: the single roll, or the rolls (all of
/// them first, when some are dropped), their sum expression and the total;
/// parts longer than `max_len` are left out or shortened to `..`.
pub open spec fn reply_spec(d: Dice, q: Seq<u64>, max_len: Option<usize>) -> Option<Seq<char>> {
    let raw = if d.select is Some {
        join_spec(texts(q), ", "@) + "\n"@
    } else {
        Seq::empty()
    };
    let k = kept(q, d.select);
    let expr = join_spec(texts(k), " + "@);
    let raw = if max_len matches Some(m) && raw.len() > m {
        Seq::empty()
    } else {
        raw
    };
    let expr = if max_len matches Some(m) && expr.len() > m {
        ".."@
    } else {
        expr
    };
    if k.len() == 0 {
        None
    } else if k.len() == 1 {
        Some(decimal(k[0] as nat))
    } else {
        Some(raw + expr + " = "@ + decimal(total(k)))
    }
}

fn to_texts(s: &Vec<u64>, from: usize, to: usize) -> (r: Vec<String>)
    requires
        from <= to <= s@.len(),
    ensures
        views(r@) == texts(s@.subrange(from as int, to as int)),
{
    let mut r: Vec<String> = Vec::new();
    let mut i: usize = from;
    while i < to
        invariant
            from <= i <= to,
            to <= s@.len(),
            views(r@) == texts(s@.subrange(from as int, i as int)),
        decreases to - i,
    {
        let ghost before = r@;
        let t = u128_to_string(s[i] as u128);
        r.push(t);
        proof {
            assert(s@.subrange(from as int, i + 1) =~= s@.subrange(from as int, i as int).push(s@[i as int]));
            assert(views(r@) =~= views(before).push(t@));
            assert(texts(s@.subrange(from as int, i + 1)) =~= texts(s@.subrange(from as int, i as int)).push(decimal(s@[i as int] as nat)));
        }
        i = i + 1;
    }
    r
}

fn sum(s: &Vec<u64>, from: usize, to: usize) -> (r: u128)
    requires
        from <= to <= s@.len(),
    ensures
        r as nat == total(s@.subrange(from as int, to as int)),
{
    let mut acc: u128 = 0;
    let mut i: usize = from;
    proof {
        assert(s@.subrange(from as int, from as int) =~= Seq::<u64>::empty());
    }
    while i < to
        invariant
            from <= i <= to,
            to <= s@.len(),
            acc as nat == total(s@.subrange(from as int, i as int)),
            acc <= (i - from) * 0xffff_ffff_ffff_ffff,
        decreases to - i,
    {
        proof {
            assert(s@.subrange(from as int, i + 1).drop_last() =~= s@.subrange(from as int, i as int));
            assert((i - from) * 0xffff_ffff_ffff_ffffnat + 0xffff_ffff_ffff_ffff <= 0xffff_ffff_ffff_ffff_ffff_ffff_ffff_ffff) by (nonlinear_arith)
                requires
                    i - from < 0x1_0000_0000_0000_0000,
            ;
        }
        acc = acc + s[i] as u128;
        i = i + 1;
    }
    acc
}

/// The reply for rolls of `d`, given in any order.
pub fn dice_reply(d: &Dice, rolls: &Vec<u64>, max_len: Option<usize>) -> (r: Option<String>)
    requires
        verify_spec(*d) is Ok,
        rolls@.len() == d.times,
    ensures
        exists|q: Seq<u64>|
            sorted(q) && q.to_multiset() == rolls@.to_multiset() && (r matches Some(s) ==> reply_spec(
                *d,
                q,
                max_len,
            ) == Some(s@)) && (r is None ==> reply_spec(*d, q, max_len) is None),
{
    let q = sort_rolls(rolls);
    proof {
        vstd::seq_lib::to_multiset_len(q@);
        vstd::seq_lib::to_multiset_len(rolls@);
    }
    let n = q.len();
    let mut raw = if d.select.is_some() {
        let mut t = join(&to_texts(&q, 0, n), ", ");
        t.append("\n");
        t
    } else {
        String::new()
    };
    proof {
        assert(q@.subrange(0, n as int) =~= q@);
    }
    let (from, to): (usize, usize) = match d.select {
        Some((true, k)) => (n - k, n),
        Some((false, k)) => (0, k),
        None => (0, n),
    };
    proof {
        assert(kept(q@, d.select) =~= q@.subrange(from as int, to as int));
    }
    let mut expr = join(&to_texts(&q, from, to), " + ");
    match max_len {
        Some(m) => {
            if raw.as_str().unicode_len() > m {
                raw = String::new();
            }
            if expr.as_str().unicode_len() > m {
                expr = "..".to_owned();
            }
        },
        None => {},
    }
    if to - from == 0 {
        return None;
    }
    if to - from == 1 {
        return Some(u128_to_string(q[from] as u128));
    }
    let mut s = raw;
    s.append(expr.as_str());
    s.append(" = ");
    s.append(u128_to_string(sum(&q, from, to)).as_str());
    Some(s)
}

/// The dice plugin's reply to a message: nothing unless it is a dice
/// expression; the refusal for dice that cannot be rolled; else the reply
/// for a fresh roll of the dice.
pub fn dice(msg: &Vec<CommonSegment>, expr_max_length: Option<usize>) -> (r: Option<String>)
    ensures
        message_dice(msg@) is None ==> r is None,
        message_dice(msg@) matches Some(d) ==> (verify_spec(d) matches Err(e) ==> (r matches Some(s)
            && s@ == verify_message(e))),
        message_dice(msg@) matches Some(d) ==> (verify_spec(d) is Ok ==> exists|q: Seq<u64>|
            q.len() == d.times && sorted(q) && (forall|i: int| 0 <= i < q.len() ==> 1 <= #[trigger] q[i]
                <= d.face) && (r matches Some(s) ==> reply_spec(d, q, expr_max_length) == Some(s@)) && (
            r is None ==> reply_spec(d, q, expr_max_length) is None)),
{
    let d = match parse_dice(msg) {
        Some(d) => d,
        None => return None,
    };
    match d.verify() {
        Err(e) => return Some(e.message()),
        Ok(()) => {},
    }
    let rolls = roll(d.face, d.times);
    let r = dice_reply(&d, &rolls, expr_max_length);
    proof {
        let q = choose|q: Seq<u64>|
            sorted(q) && q.to_multiset() == rolls@.to_multiset() && (r matches Some(s) ==> reply_spec(
                d,
                q,
                expr_max_length,
            ) == Some(s@)) && (r is None ==> reply_spec(d, q, expr_max_length) is None);
        vstd::seq_lib::to_multiset_len(q);
        vstd::seq_lib::to_multiset_len(rolls@);
        assert forall|i: int| 0 <= i < q.len() implies 1 <= #[trigger] q[i] <= d.face by {
            vstd::seq_lib::to_multiset_contains(q, q[i]);
            vstd::seq_lib::to_multiset_contains(rolls@, q[i]);
            let j = choose|j: int| 0 <= j < rolls@.len() && rolls@[j] == q[i];
            assert(1 <= rolls@[j] <= d.face);
        }
    }
    r
}

} // verus!
