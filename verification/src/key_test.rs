//! What the key test shows: the interfaces of the mouse, and the reports that they send while
//! keys are pressed.

use crate::hid::{HidInterface, KeyReport};
use crate::{hid, text};
use vstd::prelude::*;

verus! {

/// Usage page, usage and product id of an interface.
pub open spec fn label_of(usage_page: u16, usage: u16, pid: u16) -> Seq<char> {
    "up=0x"@ + text::hex4(usage_page) + " u=0x"@ + text::hex4(usage) + " pid=0x"@ + text::hex4(pid)
}

/// Usage page, usage and product id of an interface.
pub fn label(usage_page: u16, usage: u16, pid: u16) -> (out: String)
    ensures
        out@ == label_of(usage_page, usage, pid),
{
    let mut out = text::owned("up=0x");
    text::push_hex4(&mut out, usage_page);
    out.append(" u=0x");
    text::push_hex4(&mut out, usage);
    out.append(" pid=0x");
    text::push_hex4(&mut out, pid);
    out
}

/// The second part of a path, between number signs; a question mark where there is none.
pub open spec fn path_part(path: Seq<char>) -> Seq<char> {
    let parts = text::split_on(path, '#');
    if parts.len() >= 2 {
        parts[1]
    } else {
        "?"@
    }
}

/// The line for an interface.
pub open spec fn found_line(h: HidInterface) -> Seq<char> {
    "  "@ + label_of(h.usage_page, h.usage, h.pid) + " "@ + path_part(h.path@)
}

/// The interfaces of the vendor.
pub open spec fn of_vendor(list: Seq<HidInterface>) -> Seq<HidInterface> {
    list.filter(|h: HidInterface| h.vid == crate::VID)
}

/// The lines that list the interfaces of the vendor.
pub open spec fn found_lines(list: Seq<HidInterface>) -> Seq<Seq<char>> {
    let ours = of_vendor(list);
    seq!["找到 "@ + text::decimal(ours.len()) + " 个 AJAZZ 接口:"@] + Seq::new(
        ours.len(),
        |i: int| found_line(ours[i]),
    )
}

/// The line for an interface.
fn line_for(h: &HidInterface) -> (out: String)
    ensures
        out@ == found_line(*h),
{
    let mut out = text::owned("  ");
    let l = label(h.usage_page, h.usage, h.pid);
    out.append(l.as_str());
    out.append(" ");
    let path = text::chars_of(h.path.as_str());
    let parts = text::split(path.as_slice(), '#');
    if parts.len() >= 2 {
        let part = text::text_of(parts[1].as_slice());
        out.append(part.as_str());
        assert(text::views(parts@)[1] == parts@[1]@);
    } else {
        out.append("?");
    }
    assert(text::views(parts@).len() == parts@.len());
    out
}

/// The lines that list the interfaces of the vendor.
pub fn list_interfaces(list: &Vec<HidInterface>) -> (out: Vec<String>)
    ensures
        text::texts(out@) == found_lines(list@),
{
    let mut lines: Vec<String> = Vec::new();
    let ghost p = |h: HidInterface| h.vid == crate::VID;
    let mut i: usize = 0;
    assert(list@.take(0) =~= Seq::<HidInterface>::empty());
    reveal(Seq::filter);
    assert(text::texts(lines@) =~= Seq::new(
        list@.take(0).filter(p).len(),
        |k: int| found_line(list@.take(0).filter(p)[k]),
    ));
    while i < list.len()
        invariant
            i <= list@.len(),
            p == (|h: HidInterface| h.vid == crate::VID),
            text::texts(lines@) == Seq::new(
                list@.take(i as int).filter(p).len(),
                |k: int| found_line(list@.take(i as int).filter(p)[k]),
            ),
        decreases list@.len() - i,
    {
        let ghost before = text::texts(lines@);
        let ghost some = list@.take(i as int).filter(p);
        let ghost more = list@.take(i + 1).filter(p);
        assert(list@.take(i + 1).drop_last() =~= list@.take(i as int));
        reveal(Seq::filter);
        if list[i].vid == crate::VID {
            lines.push(line_for(&list[i]));
            assert(more =~= some.push(list@[i as int]));
            assert(text::texts(lines@) =~= before.push(found_line(list@[i as int])));
        } else {
            assert(more =~= some);
        }
        i += 1;
        assert(text::texts(lines@) =~= Seq::new(more.len(), |k: int| found_line(more[k])));
    }
    assert(list@.take(i as int) =~= list@);
    let ghost found = text::texts(lines@);
    assert(found.len() == lines@.len());
    let mut head = text::owned("找到 ");
    text::push_decimal(&mut head, lines.len() as u64);
    head.append(" 个 AJAZZ 接口:");
    let mut out: Vec<String> = Vec::new();
    out.push(head);
    let ghost h = head@;
    out.append(&mut lines);
    assert(text::texts(out@) =~= seq![h] + found);
    out
}

/// Whether an interface is read from: all but the audio interface, which sends audio alone.
pub fn is_watched(h: &HidInterface) -> (r: bool)
    ensures
        r == (h.vid == crate::VID && h.usage_page != crate::AUDIO_USAGE_PAGE),
        r == (h.vid == 0x363C && h.usage_page != 0xFFAA),
{
    h.vid == crate::VID && h.usage_page != crate::AUDIO_USAGE_PAGE
}

/// Bytes in hexadecimal, each with a blank behind it.
pub open spec fn hex_bytes(bytes: Seq<u8>) -> Seq<char>
    decreases bytes.len(),
{
    if bytes.len() == 0 {
        Seq::empty()
    } else {
        hex_bytes(bytes.drop_last()) + text::hex2(bytes.last()) + " "@
    }
}

/// What is shown of a report: which key it tells of, or its first bytes. A read that gave
/// nothing, or starts with a zero, is not shown.
pub open spec fn shown_report(label: Seq<char>, buf: Seq<u8>, n: nat) -> Option<Seq<char>> {
    if n == 0 || buf[0] == 0 {
        None
    } else {
        Some(
            "["@ + label + (match hid::key_report_of(buf) {
                Some(KeyReport::Forward) => "] ▼ 前进键按下"@,
                Some(KeyReport::Backward) => "] ▼ 后退键按下"@,
                Some(KeyReport::Released) => "] ▲ 释放"@,
                Some(KeyReport::Other(a, b)) => "] 0x0C "@ + text::hex2(a) + " "@ + text::hex2(b),
                None => "] "@ + hex_bytes(
                    buf.take(
                        if n < 8 {
                            n as int
                        } else {
                            8
                        },
                    ),
                ),
            }),
        )
    }
}

/// What is shown of a report of `n` bytes.
pub fn report_line(label: &str, buf: &[u8; 64], n: usize) -> (r: Option<String>)
    ensures
        r is Some == shown_report(label@, buf@, n as nat) is Some,
        r matches Some(s) ==> shown_report(label@, buf@, n as nat) == Some(s@),
{
    if n == 0 || buf[0] == 0 {
        return None;
    }
    let mut out = text::owned("[");
    out.append(label);
    let ghost head = out@;
    match hid::parse_key(buf.as_slice()) {
        Some(KeyReport::Forward) => out.append("] ▼ 前进键按下"),
        Some(KeyReport::Backward) => out.append("] ▼ 后退键按下"),
        Some(KeyReport::Released) => out.append("] ▲ 释放"),
        Some(KeyReport::Other(a, b)) => {
            out.append("] 0x0C ");
            text::push_hex2(&mut out, a);
            out.append(" ");
            text::push_hex2(&mut out, b);
            assert(out@ =~= head + ("] 0x0C "@ + text::hex2(a) + " "@ + text::hex2(b)));
        },
        None => {
            out.append("] ");
            let ghost start = out@;
            let count: usize = if n < 8 {
                n
            } else {
                8
            };
            let mut i: usize = 0;
            assert(buf@.take(0) =~= Seq::<u8>::empty());
            assert(out@ =~= start + hex_bytes(buf@.take(0)));
            while i < count
                invariant
                    i <= count <= 8,
                    out@ == start + hex_bytes(buf@.take(i as int)),
                decreases count - i,
            {
                text::push_hex2(&mut out, buf[i]);
                out.append(" ");
                i += 1;
                assert(buf@.take(i as int).drop_last() =~= buf@.take(i - 1));
                assert(out@ =~= start + hex_bytes(buf@.take(i as int)));
            }
            assert(out@ =~= head + ("] "@ + hex_bytes(buf@.take(count as int))));
        },
    }
    Some(out)
}

/// The label of an interface gives usage page, usage and product id in this order, each in four
/// hexadecimal digits.
pub proof fn law_label(usage_page: u16, usage: u16, pid: u16)
    ensures
        ({
            let l = label_of(usage_page, usage, pid);
            &&& l.len() == 29
            &&& l.take(5) == "up=0x"@
            &&& l.subrange(5, 9) == text::hex4(usage_page)
            &&& l.subrange(9, 14) == " u=0x"@
            &&& l.subrange(14, 18) == text::hex4(usage)
            &&& l.subrange(18, 25) == " pid=0x"@
            &&& l.subrange(25, 29) == text::hex4(pid)
        }),
{
    reveal_strlit("up=0x");
    reveal_strlit(" u=0x");
    reveal_strlit(" pid=0x");
    assert("up=0x"@.len() == 5 && " u=0x"@.len() == 5 && " pid=0x"@.len() == 7);
    let l = label_of(usage_page, usage, pid);
    assert(l.take(5) =~= "up=0x"@);
    assert(l.subrange(5, 9) =~= text::hex4(usage_page));
    assert(l.subrange(9, 14) =~= " u=0x"@);
    assert(l.subrange(14, 18) =~= text::hex4(usage));
    assert(l.subrange(18, 25) =~= " pid=0x"@);
    assert(l.subrange(25, 29) =~= text::hex4(pid));
}

/// The part of a path that is shown stands between its first two number signs, or behind the only
/// one; a path without any gives a question mark.
pub proof fn law_path_part(a: Seq<char>, b: Seq<char>, rest: Seq<char>)
    requires
        !a.contains('#'),
        !b.contains('#'),
    ensures
        path_part(a) == "?"@,
        path_part(a + seq!['#'] + b) == b,
        path_part(a + seq!['#'] + b + seq!['#'] + rest) == b,
{
    text::lemma_split_one(a, '#');
    text::lemma_split_one(b, '#');
    text::lemma_split_join(a, b, '#');
    assert(a + seq!['#'] + b =~= a.push('#') + b);
    let tail = b.push('#') + rest;
    text::lemma_split_join(b, rest, '#');
    text::lemma_split_join(a, tail, '#');
    assert(a + seq!['#'] + b + seq!['#'] + rest =~= a.push('#') + tail);
}

/// The key test lists the interfaces with the vendor id of the mouse, in order, and counts them.
pub proof fn law_found_lines(list: Seq<HidInterface>, h: HidInterface)
    ensures
        h.vid == 0x363C ==> of_vendor(list.push(h)) == of_vendor(list).push(h),
        h.vid != 0x363C ==> of_vendor(list.push(h)) == of_vendor(list),
        of_vendor(Seq::empty()).len() == 0,
        found_lines(list).len() == of_vendor(list).len() + 1,
        found_lines(list)[0] == "找到 "@ + text::decimal(of_vendor(list).len()) + " 个 AJAZZ 接口:"@,
        forall|i: int|
            0 <= i < of_vendor(list).len() ==> #[trigger] found_lines(list)[i + 1] == "  "@
                + label_of(of_vendor(list)[i].usage_page, of_vendor(list)[i].usage, of_vendor(
                list,
            )[i].pid) + " "@ + path_part(of_vendor(list)[i].path@),
{
    reveal(Seq::filter);
    assert(list.push(h).drop_last() =~= list);
}

/// Bytes are shown one after the other, each in two hexadecimal digits and a blank.
pub proof fn law_hex_bytes(bytes: Seq<u8>, b: u8)
    ensures
        hex_bytes(Seq::empty()).len() == 0,
        hex_bytes(bytes.push(b)) == hex_bytes(bytes) + text::hex2(b) + " "@,
{
    assert(bytes.push(b).drop_last() =~= bytes);
}

/// A report that starts with 0x0C is shown by its key, any other by its first bytes, eight at most;
/// an empty one, and one that starts with a zero, is not shown.
pub proof fn law_shown_reports(label: Seq<char>, buf: Seq<u8>, n: nat)
    requires
        buf.len() == 64,
        n <= 64,
    ensures
        shown_report(label, buf, n) is None <==> n == 0 || buf[0] == 0,
        n > 0 && buf[0] == 0x0C && buf[1] == 8 ==> shown_report(label, buf, n) == Some(
            "["@ + label + "] ▼ 前进键按下"@,
        ),
        n > 0 && buf[0] == 0x0C && buf[1] == 4 ==> shown_report(label, buf, n) == Some(
            "["@ + label + "] ▼ 后退键按下"@,
        ),
        n > 0 && buf[0] == 0x0C && buf[1] == 0 ==> shown_report(label, buf, n) == Some(
            "["@ + label + "] ▲ 释放"@,
        ),
        n > 0 && buf[0] == 0x0C && buf[1] != 8 && buf[1] != 4 && buf[1] != 0 ==> shown_report(
            label,
            buf,
            n,
        ) == Some("["@ + label + ("] 0x0C "@ + text::hex2(buf[1]) + " "@ + text::hex2(buf[2]))),
        0 < n <= 8 && buf[0] != 0x0C && buf[0] != 0 ==> shown_report(label, buf, n) == Some(
            "["@ + label + ("] "@ + hex_bytes(buf.take(n as int))),
        ),
        n > 8 && buf[0] != 0x0C && buf[0] != 0 ==> shown_report(label, buf, n) == Some(
            "["@ + label + ("] "@ + hex_bytes(buf.take(8))),
        ),
{
}

} // verus!
