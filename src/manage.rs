//! The management plugin's `mute` command: `mute <user> <seconds>`, or the
//! words `mute`, a mention and the seconds as three segments.
use vstd::prelude::*;

use crate::crypt::{strip_prefix, strip_prefix_spec};
use crate::onebot::{decimal_value, is_digit};
use crate::text::{is_space, str_eq, trim, trim_spec};
use crate::types::CommonSegment;

verus! {

/// Why a message is not a usable mute command.
#[derive(Debug, Clone, Copy, PartialEq, Eq, Structural)]
pub enum ParseErr {
    /// The seconds are not a number.
    InvalidNumber,
    /// An argument is missing.
    NotEnoughArgs,
    /// The message is not a mute command.
    NotMatch,
}

/// Whether every character of `s` is a decimal digit.
pub open spec fn all_digits(s: Seq<char>) -> bool {
    forall|i: int| 0 <= i < s.len() ==> is_digit(#[trigger] s[i])
}

/// What `u64`'s `FromStr` makes of `s`: a number (digits after an optional
/// `+`, not too large); an empty text is an error of its own.
pub open spec fn parse_u64_spec(s: Seq<char>) -> Result<u64, ParseErr> {
    if s.len() == 0 {
        Err(ParseErr::NotEnoughArgs)
    } else {
        let body = if s[0] == '+' { s.skip(1) } else { s };
        if body.len() == 0 || !all_digits(body) {
            Err(ParseErr::InvalidNumber)
        } else if decimal_value(body) > u64::MAX {
            Err(ParseErr::InvalidNumber)
        } else {
            Ok(decimal_value(body) as u64)
        }
    }
}

/// Reads seconds as `u64`'s `FromStr` does; an empty text reads as a
/// missing argument, any other failure as an invalid number.
pub fn parse_u64(s: &str) -> (r: Result<u64, ParseErr>)
    ensures
        r == parse_u64_spec(s@),
{
    let n = s.unicode_len();
    if n == 0 {
        return Err(ParseErr::NotEnoughArgs);
    }
    let start: usize = if s.get_char(0) == '+' { 1 } else { 0 };
    let ghost body = s@.subrange(start as int, n as int);
    proof {
        if s@[0] == '+' {
            assert(body =~= s@.skip(1));
        } else {
            assert(body =~= s@);
        }
    }
    if start == n {
        return Err(ParseErr::InvalidNumber);
    }
    let mut v: u64 = 0;
    let mut overflow = false;
    let mut i: usize = start;
    proof {
        assert(body =~= s@.subrange(start as int, n as int));
        assert(body.take(0) =~= Seq::<char>::empty());
    }
    while i < n
        invariant
            n == s@.len(),
            start <= i <= n,
            start < n,
            body == s@.subrange(start as int, n as int),
            body == (if s@[0] == '+' { s@.skip(1) } else { s@ }),
            n > 0,
            forall|j: int| 0 <= j < i - start ==> is_digit(body[j]),
            !overflow ==> v as nat == decimal_value(body.take(i - start)),
            overflow ==> decimal_value(body.take(i - start)) > u64::MAX,
        decreases n - i,
    {
        let c = s.get_char(i);
        if !('0' <= c && c <= '9') {
            proof {
                let k = i - start;
                assert(body[k] == c);
                assert(!is_digit(body[k]));
                assert(!all_digits(body));
            }
            return Err(ParseErr::InvalidNumber);
        }
        let d = (c as u32 - '0' as u32) as u64;
        proof {
            assert(body.take(i - start + 1).drop_last() =~= body.take(i - start));
            assert(body.take(i - start + 1).last() == c);
        }
        if !overflow {
            if v > (u64::MAX - d) / 10 {
                overflow = true;
            } else {
                v = v * 10 + d;
            }
        }
        i = i + 1;
    }
    proof {
        assert(body.take(n - start) =~= body);
    }
    if overflow {
        Err(ParseErr::InvalidNumber)
    } else {
        Ok(v)
    }
}

/// The words of `s`: its maximal runs of characters that are not white
/// space, in order.
pub open spec fn words(s: Seq<char>) -> Seq<Seq<char>>
    decreases s.len(),
{
    if s.len() == 0 {
        Seq::empty()
    } else {
        let w = words(s.drop_last());
        if is_space(s.last()) {
            w
        } else if s.len() >= 2 && !is_space(s[s.len() - 2]) {
            w.update(w.len() - 1, w.last().push(s.last()))
        } else {
            w.push(seq![s.last()])
        }
    }
}

/// The words of `s`, as `str::split_whitespace` gives them.
pub fn split_words(s: &str) -> (r: Vec<String>)
    ensures
        r@.map_values(|w: String| w@) == words(s@),
{
    let n = s.unicode_len();
    let mut out: Vec<String> = Vec::new();
    let mut cur = String::new();
    let mut i: usize = 0;
    proof {
        assert(s@.take(0) =~= Seq::<char>::empty());
        assert(out@.map_values(|w: String| w@) =~= Seq::<Seq<char>>::empty());
    }
    while i < n
        invariant
            n == s@.len(),
            i <= n,
            cur@.len() == 0 ==> out@.map_values(|w: String| w@) == words(s@.take(i as int)),
            cur@.len() > 0 ==> out@.map_values(|w: String| w@).push(cur@) == words(s@.take(i as int)),
            cur@.len() > 0 ==> i > 0 && !is_space(s@[i - 1]),
            cur@.len() == 0 ==> (i == 0 || is_space(s@[i - 1])),
        decreases n - i,
    {
        let c = s.get_char(i);
        let ghost pre = s@.take(i as int);
        proof {
            assert(s@.take(i + 1).drop_last() =~= pre);
            assert(s@.take(i + 1).last() == c);
        }
        if crate::text::is_space_char(c) {
            if cur.as_str().unicode_len() > 0 {
                let ghost before = out@.map_values(|w: String| w@);
                let w = cur;
                out.push(w);
                cur = String::new();
                proof {
                    assert(out@.map_values(|w: String| w@) =~= before.push(w@));
                }
            }
        } else {
            let ghost before = cur@;
            crate::basex::push_char(&mut cur, c);
            proof {
                let o = out@.map_values(|w: String| w@);
                if before.len() > 0 {
                    assert(i >= 1);
                    assert(pre.len() >= 1 && pre[i - 1] == s@[i - 1]);
                    assert(s@.take(i + 1)[i - 1] == s@[i - 1]);
                    assert(o.push(before).update(o.len() as int, before.push(c)) =~= o.push(cur@));
                } else {
                    if i > 0 {
                        assert(s@.take(i + 1)[i - 1] == s@[i - 1]);
                    }
                    assert(cur@ =~= seq![c]);
                }
            }
        }
        i = i + 1;
    }
    if cur.as_str().unicode_len() > 0 {
        out.push(cur);
    }
    proof {
        assert(s@.take(n as int) =~= s@);
    }
    out
}

/// What `parse_cmd` reads from a message: the member and the seconds.
pub open spec fn parse_cmd_spec(segs: Seq<CommonSegment>) -> Result<(Seq<char>, Result<u64, ParseErr>), ParseErr> {
    if segs.len() == 3 && segs[0] is Text && segs[1] is At && segs[2] is Text && trim_spec(
        segs[0]->Text_0@,
    ) == "mute"@ {
        Ok((segs[1]->At_0@, parse_u64_spec(trim_spec(segs[2]->Text_0@))))
    } else if segs.len() == 1 && segs[0] is Text {
        match strip_prefix_spec(segs[0]->Text_0@, "mute "@) {
            None => Err(ParseErr::NotMatch),
            Some(args) => if words(args).len() != 2 {
                Err(ParseErr::NotEnoughArgs)
            } else {
                Ok((words(args)[0], parse_u64_spec(words(args)[1])))
            },
        }
    } else {
        Err(ParseErr::NotMatch)
    }
}

/// Reads a mute command: the member to mute and for how many seconds.
pub fn parse_cmd(segs: &Vec<CommonSegment>) -> (r: Result<(String, u64), ParseErr>)
    ensures
        parse_cmd_spec(segs@) matches Err(e) ==> r == Err::<(String, u64), ParseErr>(e),
        parse_cmd_spec(segs@) matches Ok((u, Err(e))) ==> r == Err::<(String, u64), ParseErr>(e),
        parse_cmd_spec(segs@) matches Ok((u, Ok(secs))) ==> (r matches Ok((user, d)) && user@ == u
            && d == secs),
{
    if segs.len() == 3 {
        match (&segs[0], &segs[1], &segs[2]) {
            (CommonSegment::Text(cmd), CommonSegment::At(user), CommonSegment::Text(duration)) => {
                if str_eq(trim(cmd.as_str()).as_str(), "mute") {
                    let secs = parse_u64(trim(duration.as_str()).as_str())?;
                    return Ok((user.clone(), secs));
                }
            },
            _ => {},
        }
        return Err(ParseErr::NotMatch);
    }
    if segs.len() != 1 {
        return Err(ParseErr::NotMatch);
    }
    let cmd = match &segs[0] {
        CommonSegment::Text(t) => t,
        _ => return Err(ParseErr::NotMatch),
    };
    let args = match strip_prefix(cmd.as_str(), "mute ") {
        Some(a) => a,
        None => return Err(ParseErr::NotMatch),
    };
    let ws = split_words(args.as_str());
    proof {
        assert(ws@.map_values(|w: String| w@).len() == ws@.len());
    }
    if ws.len() != 2 {
        return Err(ParseErr::NotEnoughArgs);
    }
    proof {
        assert(ws@.map_values(|w: String| w@)[0] == ws@[0]@);
        assert(ws@.map_values(|w: String| w@)[1] == ws@[1]@);
    }
    let secs = parse_u64(ws[1].as_str())?;
    Ok((ws[0].clone(), secs))
}

} // verus!
