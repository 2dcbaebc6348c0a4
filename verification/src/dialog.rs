//! What the error boxes say.

use crate::text;
use vstd::prelude::*;

verus! {

/// The title of an error box.
pub const ERROR_TITLE: &'static str = "MouseMic 错误";

/// An error box: what it is titled and what it says.
pub struct ErrorBox {
    pub title: String,
    pub text: String,
}

/// The error box for a message.
pub fn show_error_box(msg: &str) -> (r: ErrorBox)
    ensures
        r.title@ == ERROR_TITLE@,
        r.text@ == msg@,
{
    ErrorBox { title: text::owned(ERROR_TITLE), text: text::owned(msg) }
}

/// What is said of a panic: its message, and where it happened, as far as either is known.
pub fn panic_text(payload: Option<&str>, location: Option<(&str, u32)>) -> (out: String)
    ensures
        out@ == "MouseMic 发生未捕获错误:\n"@ + (match payload {
            Some(p) => p@,
            None => "未知错误"@,
        }) + (match location {
            Some((file, line)) => " ("@ + file@ + ":"@ + text::decimal(line as nat) + ")"@,
            None => Seq::empty(),
        }),
{
    let mut out = text::owned("MouseMic 发生未捕获错误:\n");
    out.append(
        match payload {
            Some(p) => p,
            None => "未知错误",
        },
    );
    let ghost said = out@;
    if let Some((file, line)) = location {
        out.append(" (");
        out.append(file);
        out.append(":");
        text::push_decimal(&mut out, line as u64);
        out.append(")");
        assert(out@ =~= said + (" ("@ + file@ + ":"@ + text::decimal(line as nat) + ")"@));
    } else {
        assert(out@ =~= said + Seq::<char>::empty());
    }
    out
}

} // verus!
