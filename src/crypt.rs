//! The crypt plugin's commands: `encrypt <text>` and `decrypt <text>` answer
//! with every text segment of the message encoded, or decoded, with the
//! configured base-N alphabet.
use vstd::prelude::*;

use crate::basex::{decode_spec, encode_spec, BaseXMap};
use crate::text::{trim, trim_spec};
use crate::types::CommonSegment;

verus! {

/// `s` without `prefix`, when it starts with it.
pub open spec fn strip_prefix_spec(s: Seq<char>, prefix: Seq<char>) -> Option<Seq<char>> {
    if prefix.len() <= s.len() && s.take(prefix.len() as int) == prefix {
        Some(s.skip(prefix.len() as int))
    } else {
        None
    }
}

/// `s` without `prefix`, when it starts with it.
pub fn strip_prefix(s: &str, prefix: &str) -> (r: Option<String>)
    ensures
        r is Some <==> strip_prefix_spec(s@, prefix@) is Some,
        r matches Some(t) ==> t@ == strip_prefix_spec(s@, prefix@)->0,
{
    let n = s.unicode_len();
    let m = prefix.unicode_len();
    if m > n {
        return None;
    }
    let mut i: usize = 0;
    while i < m
        invariant
            n == s@.len(),
            m == prefix@.len(),
            m <= n,
            i <= m,
            forall|j: int| 0 <= j < i ==> s@[j] == prefix@[j],
        decreases m - i,
    {
        if s.get_char(i) != prefix.get_char(i) {
            proof {
                assert(s@.take(m as int)[i as int] != prefix@[i as int]);
            }
            return None;
        }
        i = i + 1;
    }
    proof {
        assert(s@.take(m as int) =~= prefix@);
    }
    Some(s.substring_char(m, n).to_owned())
}

/// The segments of a command message once its first text segment, which
/// must start with `prefix`, has the prefix removed.
pub open spec fn command_segments(segs: Seq<CommonSegment>, prefix: Seq<char>) -> Option<Seq<char>> {
    if segs.len() > 0 && segs[0] is Text {
        strip_prefix_spec(segs[0]->Text_0@, prefix)
    } else {
        None
    }
}

/// The text of the `i`-th segment of a command message after the prefix is
/// removed, if it is a text segment.
pub open spec fn command_text(segs: Seq<CommonSegment>, first: Seq<char>, i: int) -> Option<Seq<char>> {
    if i == 0 {
        Some(first)
    } else {
        match segs[i] {
            CommonSegment::Text(t) => Some(t@),
            _ => None,
        }
    }
}

/// Segment `i` of the reply: text is transformed by `f`, other segments
/// are kept.
pub open spec fn reply_segment(
    segs: Seq<CommonSegment>,
    first: Seq<char>,
    i: int,
    out: CommonSegment,
    f: spec_fn(Seq<char>) -> Seq<char>,
) -> bool {
    match command_text(segs, first, i) {
        Some(t) => out matches CommonSegment::Text(w) && w@ == f(t),
        None => out == segs[i],
    }
}

/// What encrypting one text gives: nothing for empty text, else its UTF-8
/// bytes in the alphabet.
pub open spec fn encrypt_text(m: BaseXMap, t: Seq<char>) -> Seq<char> {
    if t.len() == 0 {
        t
    } else {
        encode_spec(m.spec_alphabet(), m.spec_base(), vstd::utf8::encode_utf8(t))
    }
}

/// What decrypting one text gives: the decoded text, or the error message.
pub open spec fn decrypt_text(m: BaseXMap, t: Seq<char>) -> Seq<char> {
    match decode_spec(m.spec_alphabet(), m.spec_base(), trim_spec(t)) {
        Ok(bytes) => if vstd::utf8::valid_utf8(bytes) {
            vstd::utf8::decode_utf8(bytes)
        } else {
            "UTF-8 编码错误喵"@
        },
        Err(c) => "字符 '"@ + seq![c] + "' 无效喵"@,
    }
}

fn copy_segment(s: &CommonSegment) -> (r: CommonSegment)
    ensures
        !(s is Text) ==> r == *s,
{
    match s {
        CommonSegment::Text(t) => CommonSegment::Text(t.clone()),
        CommonSegment::Image(t) => CommonSegment::Image(t.clone()),
        CommonSegment::At(t) => CommonSegment::At(t.clone()),
        CommonSegment::Unknown(seg) => CommonSegment::Unknown(
            crate::types::Segment { ty: seg.ty.clone(), data: seg.data.clone() },
        ),
    }
}

/// The reply to `encrypt <text>`: each text segment encoded, the first
/// without the command word; `None` for a message that is not the command.
pub fn encrypt(m: &BaseXMap, segs: &Vec<CommonSegment>) -> (r: Option<Vec<CommonSegment>>)
    requires
        m.wf(),
    ensures
        r is Some <==> command_segments(segs@, "encrypt "@) is Some,
        r matches Some(out) ==> out@.len() == segs@.len() && forall|i: int|
            0 <= i < segs@.len() ==> reply_segment(
                segs@,
                command_segments(segs@, "encrypt "@)->0,
                i,
                #[trigger] out@[i],
                |t: Seq<char>| encrypt_text(*m, t),
            ),
{
    transform(m, segs, "encrypt ", true)
}

/// The reply to `decrypt <text>`: each text segment, trimmed, decoded, or
/// replaced by the error message; `None` for a message that is not the
/// command.
pub fn decrypt(m: &BaseXMap, segs: &Vec<CommonSegment>) -> (r: Option<Vec<CommonSegment>>)
    requires
        m.wf(),
    ensures
        r is Some <==> command_segments(segs@, "decrypt "@) is Some,
        r matches Some(out) ==> out@.len() == segs@.len() && forall|i: int|
            0 <= i < segs@.len() ==> reply_segment(
                segs@,
                command_segments(segs@, "decrypt "@)->0,
                i,
                #[trigger] out@[i],
                |t: Seq<char>| decrypt_text(*m, t),
            ),
{
    transform(m, segs, "decrypt ", false)
}

fn transform_text(m: &BaseXMap, t: &str, encrypting: bool) -> (r: String)
    requires
        m.wf(),
    ensures
        encrypting ==> r@ == encrypt_text(*m, t@),
        !encrypting ==> r@ == decrypt_text(*m, t@),
{
    if encrypting {
        if t.unicode_len() == 0 {
            return t.to_owned();
        }
        m.encode(t.as_bytes())
    } else {
        match m.decode_string(trim(t).as_str()) {
            Ok(s) => s,
            Err(e) => e.message(),
        }
    }
}

fn transform(m: &BaseXMap, segs: &Vec<CommonSegment>, prefix: &str, encrypting: bool) -> (r: Option<
    Vec<CommonSegment>,
>)
    requires
        m.wf(),
    ensures
        r is Some <==> command_segments(segs@, prefix@) is Some,
        r matches Some(out) ==> out@.len() == segs@.len() && forall|i: int|
            0 <= i < segs@.len() ==> reply_segment(
                segs@,
                command_segments(segs@, prefix@)->0,
                i,
                #[trigger] out@[i],
                |t: Seq<char>|
                    if encrypting {
                        encrypt_text(*m, t)
                    } else {
                        decrypt_text(*m, t)
                    },
            ),
{
    if segs.len() == 0 {
        return None;
    }
    let first = match &segs[0] {
        CommonSegment::Text(t) => match strip_prefix(t.as_str(), prefix) {
            Some(s) => s,
            None => return None,
        },
        _ => return None,
    };
    let ghost fv = first@;
    let mut out: Vec<CommonSegment> = Vec::new();
    let mut i: usize = 0;
    while i < segs.len()
        invariant
            m.wf(),
            i <= segs@.len(),
            out@.len() == i,
            fv == first@,
            fv == command_segments(segs@, prefix@)->0,
            forall|k: int|
                0 <= k < i ==> reply_segment(
                    segs@,
                    fv,
                    k,
                    #[trigger] out@[k],
                    |t: Seq<char>|
                        if encrypting {
                            encrypt_text(*m, t)
                        } else {
                            decrypt_text(*m, t)
                        },
                ),
        decreases segs@.len() - i,
    {
        let seg = if i == 0 {
            CommonSegment::Text(transform_text(m, first.as_str(), encrypting))
        } else {
            match &segs[i] {
                CommonSegment::Text(t) => CommonSegment::Text(transform_text(m, t.as_str(), encrypting)),
                other => copy_segment(other),
            }
        };
        out.push(seg);
        i = i + 1;
    }
    Some(out)
}

/// The echo plugin's reply to `echo <text>`: the message with the command
/// word removed; `None` for a message that is not the command.
pub fn echo(segs: &Vec<CommonSegment>) -> (r: Option<Vec<CommonSegment>>)
    ensures
        r is Some <==> command_segments(segs@, "echo "@) is Some,
        r matches Some(out) ==> out@.len() == segs@.len() && forall|i: int|
            0 <= i < segs@.len() ==> reply_segment(
                segs@,
                command_segments(segs@, "echo "@)->0,
                i,
                #[trigger] out@[i],
                |t: Seq<char>| t,
            ),
{
    if segs.len() == 0 {
        return None;
    }
    let first = match &segs[0] {
        CommonSegment::Text(t) => match strip_prefix(t.as_str(), "echo ") {
            Some(s) => s,
            None => return None,
        },
        _ => return None,
    };
    let ghost fv = first@;
    let mut out: Vec<CommonSegment> = Vec::new();
    out.push(CommonSegment::Text(first));
    let mut i: usize = 1;
    while i < segs.len()
        invariant
            1 <= i <= segs@.len(),
            out@.len() == i,
            fv == command_segments(segs@, "echo "@)->0,
            forall|k: int|
                0 <= k < i ==> reply_segment(segs@, fv, k, #[trigger] out@[k], |t: Seq<char>| t),
        decreases segs@.len() - i,
    {
        let seg = match &segs[i] {
            CommonSegment::Text(t) => CommonSegment::Text(t.clone()),
            other => copy_segment(other),
        };
        out.push(seg);
        i = i + 1;
    }
    Some(out)
}

} // verus!
