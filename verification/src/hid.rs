//! HID: which interfaces of the mouse carry audio and commands, whether a link is wired or
//! wireless, and the reports that are sent and received.

use crate::devices;
use crate::text;
use crate::{AUDIO_USAGE_PAGE, CMD_USAGE_PAGES, VID};
use std::collections::HashSet;
use vstd::prelude::*;

verus! {

broadcast use vstd::std_specs::hash::group_hash_axioms;

/// One HID interface as the system lists it.
#[derive(Debug, Clone)]
pub struct HidInterface {
    pub vid: u16,
    pub pid: u16,
    pub usage_page: u16,
    pub usage: u16,
    pub interface_number: i32,
    pub path: String,
    pub manufacturer: String,
    pub product: String,
}

/// An audio interface of the mouse.
#[derive(Debug, Clone)]
pub struct AjazzDevice {
    pub path: String,
    pub product_id: u16,
    pub product_string: String,
}

/// An audio link that has been opened.
#[derive(Debug, Clone)]
pub struct Connected {
    pub path: String,
    pub pid: u16,
    pub product_string: String,
    /// Whether the control interface could be opened too.
    pub control: bool,
}

/// How the mouse is connected.
#[derive(Debug, Clone, Copy, PartialEq, Eq, Structural)]
pub enum LinkKind {
    Wired,
    Wireless,
    Unknown,
}

/// The bytes of a command report: report id, command, then up to 62 bytes of `tail`.
pub open spec fn packet(c: u8, tail: Seq<u8>) -> Seq<u8> {
    Seq::new(
        64,
        |i: int|
            if i == 0 {
                0x0Bu8
            } else if i == 1 {
                c
            } else if i - 2 < tail.len() {
                tail[i - 2]
            } else {
                0u8
            },
    )
}

/// Builds a command report.
pub fn pkt(c: u8, tail: &[u8]) -> (b: [u8; 64])
    ensures
        b@ == packet(c, tail@),
{
    let mut b: [u8; 64] = [0u8; 64];
    b[0] = 0x0B;
    b[1] = c;
    let n: usize = if tail.len() < 62 {
        tail.len()
    } else {
        62
    };
    let mut i: usize = 0;
    while i < n
        invariant
            i <= n <= 62,
            n <= tail@.len(),
            b@.len() == 64,
            b@[0] == 0x0B,
            b@[1] == c,
            forall|j: int| 2 <= j < 64 ==> b@[j] == (if j - 2 < i {
                tail@[j - 2]
            } else {
                0
            }),
        decreases n - i,
    {
        b[2 + i] = tail[i];
        i += 1;
    }
    assert(b@ =~= packet(c, tail@));
    b
}

/// What follows the command in the last packet of the activation sequence.
pub open spec fn arm_tail() -> Seq<u8> {
    seq![
        0x1a, 0x18, 0x01, 0x01, 0x00, 0x00, 0x02, 0x00, 0x00, 0x04, 0x00, 0x00, 0x08, 0x01, 0x00,
        0x10, 0x02, 0x00, 0x20, 0x00, 0x00, 0x40, 0x00, 0x00, 0x80, 0x00,
    ]
}

/// The activation sequence.
pub open spec fn arm_seq() -> Seq<Seq<u8>> {
    seq![
        packet(0x13, Seq::empty()),
        packet(0x13, Seq::empty()),
        packet(0x14, Seq::empty()),
        packet(0x15, Seq::empty()),
        packet(0x17, Seq::empty()),
        packet(0x19, Seq::empty()),
        packet(0x51, Seq::empty()),
        packet(0x55, arm_tail()),
    ]
}

/// The bytes of each report.
pub open spec fn report_bytes(v: Seq<[u8; 64]>) -> Seq<Seq<u8>> {
    Seq::new(v.len(), |i: int| v[i]@)
}

/// Builds the activation sequence.
pub fn build_arm_seq() -> (out: Vec<[u8; 64]>)
    ensures
        report_bytes(out@) == arm_seq(),
{
    let none: [u8; 0] = [];
    let tail: [u8; 26] = [
        0x1a, 0x18, 0x01, 0x01, 0x00, 0x00, 0x02, 0x00, 0x00, 0x04, 0x00, 0x00, 0x08, 0x01, 0x00,
        0x10, 0x02, 0x00, 0x20, 0x00, 0x00, 0x40, 0x00, 0x00, 0x80, 0x00,
    ];
    assert(none@ =~= Seq::<u8>::empty());
    assert(tail@ =~= arm_tail());
    let out = vec![
        pkt(0x13, none.as_slice()),
        pkt(0x13, none.as_slice()),
        pkt(0x14, none.as_slice()),
        pkt(0x15, none.as_slice()),
        pkt(0x17, none.as_slice()),
        pkt(0x19, none.as_slice()),
        pkt(0x51, none.as_slice()),
        pkt(0x55, tail.as_slice()),
    ];
    assert(report_bytes(out@) =~= arm_seq());
    out
}

/// Whether a link is wired or wireless. The product string decides: "2.4G" stands in that of
/// the receiver, "Mouse" in that of the cable. The configured product ids help only where it
/// says neither.
pub open spec fn link_of(
    product: Seq<char>,
    wired: Set<u16>,
    wireless: Set<u16>,
    pid: u16,
) -> LinkKind {
    let s = text::lowered(product);
    if text::occurs(s, "2.4g"@) {
        LinkKind::Wireless
    } else if text::occurs(s, "mouse"@) {
        LinkKind::Wired
    } else if wired.contains(pid) {
        LinkKind::Wired
    } else if wireless.contains(pid) {
        LinkKind::Wireless
    } else {
        LinkKind::Unknown
    }
}

/// The word for a kind of link.
pub open spec fn link_word(k: LinkKind) -> Seq<char> {
    match k {
        LinkKind::Wired => "wired"@,
        LinkKind::Wireless => "wireless"@,
        LinkKind::Unknown => "unknown"@,
    }
}

/// The label that is shown for a kind of link.
pub open spec fn link_label(k: LinkKind) -> Seq<char> {
    match k {
        LinkKind::Wired => "有线"@,
        LinkKind::Wireless => "无线"@,
        LinkKind::Unknown => "未知"@,
    }
}

/// Whether a link is wired or wireless.
pub fn link_kind(
    ps: &str,
    wired_pids: &HashSet<u16>,
    wireless_pids: &HashSet<u16>,
    pid: u16,
) -> (r: LinkKind)
    ensures
        r == link_of(ps@, wired_pids@, wireless_pids@, pid),
{
    let s = text::ascii_lower(ps);
    if text::contains(s.as_slice(), text::chars_of("2.4g").as_slice()) {
        LinkKind::Wireless
    } else if text::contains(s.as_slice(), text::chars_of("mouse").as_slice()) {
        LinkKind::Wired
    } else if wired_pids.contains(&pid) {
        LinkKind::Wired
    } else if wireless_pids.contains(&pid) {
        LinkKind::Wireless
    } else {
        LinkKind::Unknown
    }
}

/// Whether a link is `wired`, `wireless` or `unknown`.
pub fn classify_link(
    ps: &str,
    wired_pids: &HashSet<u16>,
    wireless_pids: &HashSet<u16>,
    pid: u16,
) -> (r: &'static str)
    ensures
        r@ == link_word(link_of(ps@, wired_pids@, wireless_pids@, pid)),
{
    match link_kind(ps, wired_pids, wireless_pids, pid) {
        LinkKind::Wired => "wired",
        LinkKind::Wireless => "wireless",
        LinkKind::Unknown => "unknown",
    }
}

/// The label for the word of a kind of link.
pub fn classify_label(link: &str) -> (r: &'static str)
    ensures
        r@ == (if link@ == "wired"@ {
            "有线"@
        } else if link@ == "wireless"@ {
            "无线"@
        } else {
            "未知"@
        }),
{
    if text::same(link, "wired") {
        "有线"
    } else if text::same(link, "wireless") {
        "无线"
    } else {
        "未知"
    }
}

/// The label for a kind of link.
pub fn kind_label(k: LinkKind) -> (r: &'static str)
    ensures
        r@ == link_label(k),
{
    match k {
        LinkKind::Wired => "有线",
        LinkKind::Wireless => "无线",
        LinkKind::Unknown => "未知",
    }
}

/// An interface of a supported mouse.
pub open spec fn is_ours(h: HidInterface) -> bool {
    h.vid == VID && devices::supported(h.pid)
}

/// An audio interface of a supported mouse.
pub open spec fn is_audio(h: HidInterface) -> bool {
    is_ours(h) && h.usage_page == AUDIO_USAGE_PAGE
}

/// The audio link behind an interface.
pub open spec fn device_of(h: HidInterface) -> AjazzDevice {
    AjazzDevice { path: h.path, product_id: h.pid, product_string: h.product }
}

/// The audio links among the interfaces, in the order listed.
pub open spec fn audio_links(list: Seq<HidInterface>) -> Seq<AjazzDevice> {
    list.filter(|h: HidInterface| is_audio(h)).map_values(|h: HidInterface| device_of(h))
}

/// Lists the audio links of supported mice.
pub fn enumerate_audio(list: &Vec<HidInterface>) -> (out: Vec<AjazzDevice>)
    ensures
        out@ == audio_links(list@),
{
    let ghost p = |h: HidInterface| is_audio(h);
    let ghost f = |h: HidInterface| device_of(h);
    let mut out: Vec<AjazzDevice> = Vec::new();
    let mut i: usize = 0;
    proof {
        reveal(Seq::filter);
        assert(list@.take(0).filter(p).map_values(f) =~= Seq::<AjazzDevice>::empty());
    }
    while i < list.len()
        invariant
            i <= list@.len(),
            p == (|h: HidInterface| is_audio(h)),
            f == (|h: HidInterface| device_of(h)),
            out@ == list@.take(i as int).filter(p).map_values(f),
        decreases list@.len() - i,
    {
        let ghost before = list@.take(i as int).filter(p);
        assert(list@.take(i + 1).drop_last() == list@.take(i as int));
        reveal(Seq::filter);
        let h = &list[i];
        if h.vid == VID && h.usage_page == AUDIO_USAGE_PAGE && devices::is_supported(h.pid) {
            out.push(
                AjazzDevice {
                    path: h.path.clone(),
                    product_id: h.pid,
                    product_string: h.product.clone(),
                },
            );
            assert(before.push(list@[i as int]).map_values(f) =~= before.map_values(f).push(
                device_of(list@[i as int]),
            ));
        }
        i += 1;
    }
    assert(list@.take(i as int) == list@);
    out
}

/// The kind of an audio link.
pub open spec fn device_kind(d: AjazzDevice, wired: Set<u16>, wireless: Set<u16>) -> LinkKind {
    link_of(d.product_string@, wired, wireless, d.product_id)
}

/// The links of one kind, but for the one at the excluded path, in the order listed.
pub open spec fn of_kind(
    links: Seq<AjazzDevice>,
    wired: Set<u16>,
    wireless: Set<u16>,
    exclude: Option<Seq<char>>,
    k: LinkKind,
) -> Seq<AjazzDevice> {
    links.filter(
        |d: AjazzDevice| exclude != Some(d.path@) && device_kind(d, wired, wireless) == k,
    )
}

/// The audio links in the order in which they are tried: wired, wireless, unknown.
pub open spec fn by_priority(
    links: Seq<AjazzDevice>,
    wired: Set<u16>,
    wireless: Set<u16>,
    exclude: Option<Seq<char>>,
) -> Seq<AjazzDevice> {
    of_kind(links, wired, wireless, exclude, LinkKind::Wired) + of_kind(
        links,
        wired,
        wireless,
        exclude,
        LinkKind::Wireless,
    ) + of_kind(links, wired, wireless, exclude, LinkKind::Unknown)
}

/// The characters of an optional string.
pub open spec fn opt_view(s: Option<&str>) -> Option<Seq<char>> {
    match s {
        Some(t) => Some(t@),
        None => None,
    }
}

fn push_kind(
    out: &mut Vec<AjazzDevice>,
    links: &Vec<AjazzDevice>,
    wired_pids: &HashSet<u16>,
    wireless_pids: &HashSet<u16>,
    exclude_path: Option<&str>,
    k: LinkKind,
)
    ensures
        final(out)@ == old(out)@ + of_kind(
            links@,
            wired_pids@,
            wireless_pids@,
            opt_view(exclude_path),
            k,
        ),
{
    let ghost exclude = opt_view(exclude_path);
    let ghost p = |d: AjazzDevice|
        exclude != Some(d.path@) && device_kind(d, wired_pids@, wireless_pids@) == k;
    let ghost start = out@;
    let mut i: usize = 0;
    proof {
        reveal(Seq::filter);
        assert(out@ =~= start + links@.take(0).filter(p));
    }
    while i < links.len()
        invariant
            i <= links@.len(),
            exclude == opt_view(exclude_path),
            p == (|d: AjazzDevice|
                exclude != Some(d.path@) && device_kind(d, wired_pids@, wireless_pids@) == k),
            out@ == start + links@.take(i as int).filter(p),
        decreases links@.len() - i,
    {
        assert(links@.take(i + 1).drop_last() == links@.take(i as int));
        reveal(Seq::filter);
        let d = &links[i];
        let excluded = match exclude_path {
            Some(ex) => text::same(d.path.as_str(), ex),
            None => false,
        };
        let kind = link_kind(
            d.product_string.as_str(),
            wired_pids,
            wireless_pids,
            d.product_id,
        );
        if !excluded && kind == k {
            out.push(
                AjazzDevice {
                    path: d.path.clone(),
                    product_id: d.product_id,
                    product_string: d.product_string.clone(),
                },
            );
        }
        i += 1;
        assert(out@ =~= start + links@.take(i as int).filter(p));
    }
    assert(links@.take(i as int) == links@);
}

/// The audio links of supported mice in the order in which they are tried.
pub fn priority_order(
    list: &Vec<HidInterface>,
    wired_pids: &HashSet<u16>,
    wireless_pids: &HashSet<u16>,
    exclude_path: Option<&str>,
) -> (out: Vec<AjazzDevice>)
    ensures
        out@ == by_priority(
            audio_links(list@),
            wired_pids@,
            wireless_pids@,
            opt_view(exclude_path),
        ),
{
    let links = enumerate_audio(list);
    let mut out: Vec<AjazzDevice> = Vec::new();
    push_kind(&mut out, &links, wired_pids, wireless_pids, exclude_path, LinkKind::Wired);
    push_kind(&mut out, &links, wired_pids, wireless_pids, exclude_path, LinkKind::Wireless);
    push_kind(&mut out, &links, wired_pids, wireless_pids, exclude_path, LinkKind::Unknown);
    assert(out@ =~= by_priority(
        links@,
        wired_pids@,
        wireless_pids@,
        opt_view(exclude_path),
    ));
    out
}

/// Which interfaces a search looks for.
#[derive(Debug, Clone, Copy, PartialEq, Eq, Structural)]
pub enum Pick {
    /// Those with this product id and usage page.
    Page(u16, u16),
    /// Those with this product id that are neither audio nor generic desktop.
    Other(u16),
    /// Those with this usage page.
    AnyPid(u16),
    /// The control interface with this product id.
    Control(u16),
}

/// Whether a search looks for an interface.
pub open spec fn picked(h: HidInterface, which: Pick) -> bool {
    is_ours(h) && match which {
        Pick::Page(pid, page) => h.pid == pid && h.usage_page == page,
        Pick::Other(pid) => h.pid == pid && h.usage_page != AUDIO_USAGE_PAGE && h.usage_page
            != 0x0001,
        Pick::AnyPid(page) => h.usage_page == page,
        Pick::Control(pid) => h.pid == pid && h.usage_page == 0xFFA0 && h.usage == 0x0002,
    }
}

/// The paths that a search finds, in the order listed.
pub open spec fn paths_of(list: Seq<HidInterface>, which: Pick) -> Seq<Seq<char>> {
    list.filter(|h: HidInterface| picked(h, which)).map_values(|h: HidInterface| h.path@)
}

fn is_picked(h: &HidInterface, which: Pick) -> (r: bool)
    ensures
        r == picked(*h, which),
{
    if h.vid != VID || !devices::is_supported(h.pid) {
        return false;
    }
    match which {
        Pick::Page(pid, page) => h.pid == pid && h.usage_page == page,
        Pick::Other(pid) => h.pid == pid && h.usage_page != AUDIO_USAGE_PAGE && h.usage_page
            != 0x0001,
        Pick::AnyPid(page) => h.usage_page == page,
        Pick::Control(pid) => h.pid == pid && h.usage_page == 0xFFA0 && h.usage == 0x0002,
    }
}

fn push_paths(out: &mut Vec<String>, list: &Vec<HidInterface>, which: Pick)
    ensures
        text::texts(final(out)@) == text::texts(old(out)@) + paths_of(list@, which),
{
    let ghost p = |h: HidInterface| picked(h, which);
    let ghost f = |h: HidInterface| h.path@;
    let ghost start = text::texts(out@);
    let mut i: usize = 0;
    proof {
        reveal(Seq::filter);
        assert(text::texts(out@) =~= start + list@.take(0).filter(p).map_values(f));
    }
    while i < list.len()
        invariant
            i <= list@.len(),
            p == (|h: HidInterface| picked(h, which)),
            f == (|h: HidInterface| h.path@),
            text::texts(out@) == start + list@.take(i as int).filter(p).map_values(f),
        decreases list@.len() - i,
    {
        let ghost before = list@.take(i as int).filter(p);
        let ghost shown = text::texts(out@);
        assert(list@.take(i + 1).drop_last() == list@.take(i as int));
        reveal(Seq::filter);
        if is_picked(&list[i], which) {
            out.push(list[i].path.clone());
            assert(text::texts(out@) =~= shown.push(list@[i as int].path@));
            assert(before.push(list@[i as int]).map_values(f) =~= before.map_values(f).push(
                list@[i as int].path@,
            ));
        }
        i += 1;
        assert(text::texts(out@) =~= start + list@.take(i as int).filter(p).map_values(f));
    }
    assert(list@.take(i as int) == list@);
}

/// `s` with only the first of equal elements kept.
pub open spec fn unique(s: Seq<Seq<char>>) -> Seq<Seq<char>>
    decreases s.len(),
{
    if s.len() == 0 {
        s
    } else {
        let front = unique(s.drop_last());
        if front.contains(s.last()) {
            front
        } else {
            front.push(s.last())
        }
    }
}

fn keep_unique(paths: Vec<String>) -> (out: Vec<String>)
    ensures
        text::texts(out@) == unique(text::texts(paths@)),
{
    let ghost all = text::texts(paths@);
    let mut out: Vec<String> = Vec::new();
    let mut i: usize = 0;
    assert(text::texts(out@) =~= unique(all.take(0)));
    while i < paths.len()
        invariant
            i <= paths@.len(),
            all == text::texts(paths@),
            text::texts(out@) == unique(all.take(i as int)),
        decreases paths@.len() - i,
    {
        let ghost shown = text::texts(out@);
        assert(all.take(i + 1).drop_last() == all.take(i as int));
        let mut known = false;
        let mut j: usize = 0;
        while j < out.len()
            invariant
                i < paths@.len(),
                j <= out@.len(),
                shown == text::texts(out@),
                known == exists|k: int| 0 <= k < j && shown[k] == paths@[i as int]@,
            decreases out@.len() - j,
        {
            if text::same(out[j].as_str(), paths[i].as_str()) {
                assert(shown[j as int] == paths@[i as int]@);
                known = true;
            }
            j += 1;
        }
        if !known {
            out.push(paths[i].clone());
            assert(text::texts(out@) =~= shown.push(paths@[i as int]@));
        } else {
            assert(shown.contains(paths@[i as int]@));
        }
        i += 1;
    }
    assert(all.take(i as int) == all);
    out
}

/// The paths of the command channel for an audio link, best first: the command usage pages in
/// order, then any other interface of the same mouse that is neither audio nor generic
/// desktop.
pub open spec fn own_command_paths(list: Seq<HidInterface>, pid: u16) -> Seq<Seq<char>> {
    unique(
        paths_of(list, Pick::Page(pid, 0xFFA0)) + paths_of(list, Pick::Page(pid, 0xFFB1))
            + paths_of(list, Pick::Page(pid, 0xFFDF)) + paths_of(list, Pick::Other(pid)),
    )
}

/// The one path that is tried where the mouse itself offers none: the first interface with a
/// command usage page, whatever its product id.
pub open spec fn any_command_path(list: Seq<HidInterface>) -> Seq<Seq<char>> {
    let all = paths_of(list, Pick::AnyPid(0xFFA0)) + paths_of(list, Pick::AnyPid(0xFFB1))
        + paths_of(list, Pick::AnyPid(0xFFDF));
    if all.len() > 0 {
        seq![all[0]]
    } else {
        all
    }
}

/// The paths that are tried as the command channel.
pub open spec fn command_paths(list: Seq<HidInterface>, audio_pid: Option<u16>) -> Seq<Seq<char>> {
    match audio_pid {
        Some(pid) => {
            let own = own_command_paths(list, pid);
            if own.len() > 0 {
                own
            } else {
                any_command_path(list)
            }
        },
        None => any_command_path(list),
    }
}

/// Lists the paths that are tried as the command channel, best first.
pub fn find_command_paths(list: &Vec<HidInterface>, audio_pid: Option<u16>) -> (out: Vec<String>)
    ensures
        text::texts(out@) == command_paths(list@, audio_pid),
{
    match audio_pid {
        Some(pid) => {
            let mut paths: Vec<String> = Vec::new();
            assert(text::texts(paths@) =~= Seq::<Seq<char>>::empty());
            push_paths(&mut paths, list, Pick::Page(pid, CMD_USAGE_PAGES[0]));
            push_paths(&mut paths, list, Pick::Page(pid, CMD_USAGE_PAGES[1]));
            push_paths(&mut paths, list, Pick::Page(pid, CMD_USAGE_PAGES[2]));
            push_paths(&mut paths, list, Pick::Other(pid));
            assert(text::texts(paths@) =~= paths_of(list@, Pick::Page(pid, 0xFFA0)) + paths_of(
                list@,
                Pick::Page(pid, 0xFFB1),
            ) + paths_of(list@, Pick::Page(pid, 0xFFDF)) + paths_of(list@, Pick::Other(pid)));
            let own = keep_unique(paths);
            assert(text::texts(own@).len() == own@.len());
            if own.len() > 0 {
                return own;
            }
        },
        None => {},
    }
    let mut paths: Vec<String> = Vec::new();
    assert(text::texts(paths@) =~= Seq::<Seq<char>>::empty());
    push_paths(&mut paths, list, Pick::AnyPid(CMD_USAGE_PAGES[0]));
    push_paths(&mut paths, list, Pick::AnyPid(CMD_USAGE_PAGES[1]));
    push_paths(&mut paths, list, Pick::AnyPid(CMD_USAGE_PAGES[2]));
    let ghost all = paths_of(list@, Pick::AnyPid(0xFFA0)) + paths_of(list@, Pick::AnyPid(0xFFB1))
        + paths_of(list@, Pick::AnyPid(0xFFDF));
    assert(text::texts(paths@) =~= all);
    assert(text::texts(paths@).len() == paths@.len());
    paths.truncate(1);
    assert(text::texts(paths@) =~= any_command_path(list@));
    paths
}

/// Lists the paths that are tried as the control interface of a mouse.
pub fn control_paths(list: &Vec<HidInterface>, pid: u16) -> (out: Vec<String>)
    ensures
        text::texts(out@) == paths_of(list@, Pick::Control(pid)),
{
    let mut out: Vec<String> = Vec::new();
    push_paths(&mut out, list, Pick::Control(pid));
    assert(text::texts(out@) =~= paths_of(list@, Pick::Control(pid)));
    out
}

/// The key table in the AI commands, as the vendor's driver sends it.
pub open spec fn ai_payload() -> Seq<u8> {
    seq![
        0x00, 0x00, 0x02, 0x00, 0x00, 0x04, 0x00, 0x00, 0x08, 0x01, 0x00, 0x10, 0x00, 0x00, 0x20,
        0x00, 0x00, 0x40, 0x00, 0x00, 0x80, 0x00,
    ]
}

/// A report that turns AI voice on or off; it is sent twice, the second time with byte 4 set.
pub open spec fn ai_report_bytes(on: bool, second: bool) -> Seq<u8> {
    packet(
        0x55,
        seq![
            0x1au8,
            if on {
                0x10u8
            } else {
                0x08u8
            },
            if second {
                0x01u8
            } else {
                0x00u8
            },
            0x01u8,
        ] + ai_payload(),
    )
}

/// Builds a report that turns AI voice on or off.
pub fn ai_report(on: bool, second: bool) -> (r: [u8; 64])
    ensures
        r@ == ai_report_bytes(on, second),
{
    let mut r: [u8; 64] = [0u8; 64];
    let payload: [u8; 22] = [
        0x00, 0x00, 0x02, 0x00, 0x00, 0x04, 0x00, 0x00, 0x08, 0x01, 0x00, 0x10, 0x00, 0x00, 0x20,
        0x00, 0x00, 0x40, 0x00, 0x00, 0x80, 0x00,
    ];
    assert(payload@ =~= ai_payload());
    r[0] = 0x0b;
    r[1] = 0x55;
    r[2] = 0x1a;
    r[3] = if on {
        0x10
    } else {
        0x08
    };
    r[4] = if second {
        0x01
    } else {
        0x00
    };
    r[5] = 0x01;
    assert(r@.take(6) =~= ai_report_bytes(on, second).take(6));
    let mut i: usize = 0;
    while i < 22
        invariant
            i <= 22,
            payload@ == ai_payload(),
            r@.len() == 64,
            r@.take(6) == ai_report_bytes(on, second).take(6),
            forall|j: int| 6 <= j < 64 ==> r@[j] == (if j - 6 < i {
                ai_payload()[j - 6]
            } else {
                0
            }),
        decreases 22 - i,
    {
        r[6 + i] = payload[i];
        i += 1;
        assert(r@.take(6) =~= ai_report_bytes(on, second).take(6));
    }
    assert forall|j: int| 0 <= j < 6 implies r@[j] == ai_report_bytes(on, second)[j] by {
        assert(r@.take(6)[j] == ai_report_bytes(on, second).take(6)[j]);
    }
    assert(r@ =~= ai_report_bytes(on, second));
    r
}

/// How long to wait before the second AI report, in milliseconds.
pub const AI_PAUSE_MS: u64 = 50;

/// The switching of AI voice: two reports, the second of which is sent only where the first went
/// out whole.
#[derive(Debug, Clone, Copy, PartialEq, Eq, Structural)]
pub struct AiSession {
    pub on: bool,
    /// How many reports went out whole.
    pub sent: usize,
    /// A report did not go out whole.
    pub short: bool,
}

impl AiSession {
    /// At most two reports go out.
    pub open spec fn wf(self) -> bool {
        self.sent <= 2 && (self.short ==> self.sent < 2)
    }

    /// Whether there is nothing more to send.
    pub open spec fn done(self) -> bool {
        self.short || self.sent >= 2
    }

    /// The session after a write of so many bytes. One that is done stays as it is.
    pub open spec fn after(self, n: usize) -> AiSession {
        if self.done() {
            self
        } else if n == 64 {
            AiSession { sent: (self.sent + 1) as usize, ..self }
        } else {
            AiSession { short: true, ..self }
        }
    }

    /// The next report to send; none where there is nothing more to send.
    pub fn pending(&self) -> (r: Option<[u8; 64]>)
        ensures
            r is Some == !self.done(),
            r matches Some(b) ==> b@ == ai_report_bytes(self.on, self.sent == 1),
    {
        if self.short || self.sent >= 2 {
            None
        } else {
            Some(ai_report(self.on, self.sent == 1))
        }
    }

    /// How long to wait before the next report.
    pub fn pause_ms(&self) -> (r: u64)
        ensures
            r == (if self.sent == 1 && !self.short {
                AI_PAUSE_MS
            } else {
                0
            }),
            self.sent == 1 && !self.short ==> r == 50,
    {
        if self.sent == 1 && !self.short {
            AI_PAUSE_MS
        } else {
            0
        }
    }

    /// Takes note of how many bytes of the report were written; none where the write failed.
    pub fn step(&mut self, n: usize)
        requires
            old(self).wf(),
        ensures
            final(self).wf(),
            *final(self) == old(self).after(n),
    {
        if self.short || self.sent >= 2 {
            return;
        }
        if fully_written(n) {
            self.sent = self.sent + 1;
        } else {
            self.short = true;
        }
    }

    /// Whether AI voice was switched; none while there is more to send.
    pub fn result(&self) -> (r: Option<bool>)
        ensures
            r == (if self.done() {
                Some(!self.short)
            } else {
                None
            }),
    {
        if self.short || self.sent >= 2 {
            Some(!self.short)
        } else {
            None
        }
    }
}

/// Starts to switch AI voice on.
pub fn ai_on() -> (r: AiSession)
    ensures
        r.wf(),
        r == (AiSession { on: true, sent: 0, short: false }),
{
    AiSession { on: true, sent: 0, short: false }
}

/// Starts to switch AI voice off.
pub fn ai_off() -> (r: AiSession)
    ensures
        r.wf(),
        r == (AiSession { on: false, sent: 0, short: false }),
{
    AiSession { on: false, sent: 0, short: false }
}

/// Starts to switch AI voice on or off.
pub fn set_ai_key_mode(mode: bool) -> (r: AiSession)
    ensures
        r.wf(),
        r == (AiSession { on: mode, sent: 0, short: false }),
{
    if mode {
        ai_on()
    } else {
        ai_off()
    }
}

/// AI voice counts as switched exactly where both reports went out whole, and after a report
/// that did not nothing follows.
pub proof fn law_ai_takes_both(on: bool, first: usize, second: usize)
    ensures
        ({
            let s = AiSession { on, sent: 0, short: false };
            let end = s.after(first).after(second);
            &&& first != 64 ==> s.after(first).done() && end == s.after(first)
            &&& first == 64 ==> !s.after(first).done() && end.done()
            &&& end.done() && !end.short <==> first == 64 && second == 64
        }),
{
}

/// Whether a report was taken whole: a write counts only where all 64 bytes went out.
pub fn fully_written(n: usize) -> (r: bool)
    ensures
        r == (n == 64),
{
    n == 64
}

/// The battery level in percent and the charging flag of a status report, which starts with
/// 0x0A 0x13 and holds them in bytes 18 and 17.
pub open spec fn battery_of(buf: Seq<u8>) -> Option<(u8, bool)> {
    if buf.len() >= 19 && buf[0] == 0x0A && buf[1] == 0x13 {
        Some((buf[18], buf[17] != 0))
    } else {
        None
    }
}

/// Reads battery level and charging flag from a status report.
pub fn parse_battery(buf: &[u8]) -> (r: Option<(u8, bool)>)
    ensures
        r == battery_of(buf@),
{
    if buf.len() >= 19 && buf[0] == 0x0A && buf[1] == 0x13 {
        Some((buf[18], buf[17] != 0))
    } else {
        None
    }
}

/// What a key report of the mouse says.
#[derive(Debug, Clone, Copy, PartialEq, Eq, Structural)]
pub enum KeyReport {
    Forward,
    Backward,
    Released,
    Other(u8, u8),
}

/// The content of a key report, which starts with 0x0C.
pub open spec fn key_report_of(buf: Seq<u8>) -> Option<KeyReport> {
    if buf.len() >= 3 && buf[0] == 0x0C {
        Some(
            if buf[1] == 0x08 {
                KeyReport::Forward
            } else if buf[1] == 0x04 {
                KeyReport::Backward
            } else if buf[1] == 0x00 {
                KeyReport::Released
            } else {
                KeyReport::Other(buf[1], buf[2])
            },
        )
    } else {
        None
    }
}

/// Reads a key report.
pub fn parse_key(buf: &[u8]) -> (r: Option<KeyReport>)
    ensures
        r == key_report_of(buf@),
{
    if buf.len() >= 3 && buf[0] == 0x0C {
        Some(
            if buf[1] == 0x08 {
                KeyReport::Forward
            } else if buf[1] == 0x04 {
                KeyReport::Backward
            } else if buf[1] == 0x00 {
                KeyReport::Released
            } else {
                KeyReport::Other(buf[1], buf[2])
            },
        )
    } else {
        None
    }
}

/// What is remarked of an interface in the device list.
pub open spec fn interface_mark(h: HidInterface) -> Seq<char> {
    (if h.vid == VID {
        "  <== AJAZZ"@ + (match link_of(h.product@, Set::empty(), Set::empty(), h.pid) {
            LinkKind::Wired => "  [有线]"@,
            LinkKind::Wireless => "  [无线]"@,
            LinkKind::Unknown => Seq::empty(),
        })
    } else {
        Seq::empty()
    }) + (if h.usage_page == AUDIO_USAGE_PAGE {
        "  [音频接口]"@
    } else {
        Seq::empty()
    })
}

/// The line of an interface in the device list.
pub open spec fn interface_line(h: HidInterface) -> Seq<char> {
    "  "@ + text::hex4(h.vid) + " "@ + text::hex4(h.pid) + "   #"@ + text::padded(
        text::signed_decimal(h.interface_number as int),
        3,
    ) + "  0x"@ + text::hex4(h.usage_page) + "  "@ + h.manufacturer@ + " "@ + h.product@
        + interface_mark(h)
}

fn hid_line(h: &HidInterface) -> (out: String)
    ensures
        out@ == interface_line(*h),
{
    let mut out = text::owned("  ");
    text::push_hex4(&mut out, h.vid);
    out.append(" ");
    text::push_hex4(&mut out, h.pid);
    out.append("   #");
    text::push_padded(&mut out, h.interface_number, 3);
    out.append("  0x");
    text::push_hex4(&mut out, h.usage_page);
    out.append("  ");
    out.append(h.manufacturer.as_str());
    out.append(" ");
    out.append(h.product.as_str());
    let ghost plain = out@;
    if h.vid == VID {
        out.append("  <== AJAZZ");
        let none: HashSet<u16> = HashSet::new();
        match link_kind(h.product.as_str(), &none, &none, h.pid) {
            LinkKind::Wired => {
                out.append("  [有线]");
            },
            LinkKind::Wireless => {
                out.append("  [无线]");
            },
            LinkKind::Unknown => {},
        }
    }
    if h.usage_page == AUDIO_USAGE_PAGE {
        out.append("  [音频接口]");
    }
    assert(out@ =~= plain + interface_mark(*h));
    out
}

/// The lines of the device list: a heading, one line for each interface, an empty line and a
/// hint.
pub open spec fn hid_lines(list: Seq<HidInterface>) -> Seq<Seq<char>> {
    seq!["HID 设备清单 (VID PID  接口  usage_page  厂商/产品):"@] + Seq::new(
        list.len(),
        |i: int| interface_line(list[i]),
    ) + seq![
        ""@,
        "提示: 音频接口需 usage_page=0xFFAA。若插线后看不到 AJAZZ 或没有该接口,"@,
        "说明此鼠标有线的 USB 未暴露语音 HID (硬件限制), 只能无线用语音。"@,
    ]
}

/// The device list as lines of text.
pub fn list_hid(list: &Vec<HidInterface>) -> (out: Vec<String>)
    ensures
        text::texts(out@) == hid_lines(list@),
{
    let mut out: Vec<String> = Vec::new();
    out.push(text::owned("HID 设备清单 (VID PID  接口  usage_page  厂商/产品):"));
    let mut i: usize = 0;
    while i < list.len()
        invariant
            i <= list@.len(),
            out@.len() == i + 1,
            text::texts(out@) == hid_lines(list@).take(i + 1),
        decreases list@.len() - i,
    {
        let ghost shown = text::texts(out@);
        out.push(hid_line(&list[i]));
        i += 1;
        assert(text::texts(out@) =~= shown.push(interface_line(list@[i - 1])));
        assert(text::texts(out@) =~= hid_lines(list@).take(i + 1));
    }
    let ghost shown = text::texts(out@);
    out.push(text::owned(""));
    assert(text::texts(out@) =~= shown.push(""@));
    out.push(
        text::owned("提示: 音频接口需 usage_page=0xFFAA。若插线后看不到 AJAZZ 或没有该接口,"),
    );
    let ghost shown = text::texts(out@);
    assert(shown =~= hid_lines(list@).drop_last());
    out.push(
        text::owned("说明此鼠标有线的 USB 未暴露语音 HID (硬件限制), 只能无线用语音。"),
    );
    assert(text::texts(out@) =~= shown.push(hid_lines(list@).last()));
    assert(text::texts(out@) =~= hid_lines(list@));
    out
}

/// Every packet of the activation sequence has 64 bytes and starts with report id 0x0B.
pub proof fn law_arm_packets(i: int)
    requires
        0 <= i < arm_seq().len(),
    ensures
        arm_seq()[i].len() == 64,
        arm_seq()[i][0] == 0x0B,
{
}

/// Turning AI voice on and turning it off differ in one byte only.
pub proof fn law_ai_on_off_differ(second: bool, i: int)
    requires
        0 <= i < 64,
    ensures
        ai_report_bytes(true, second)[i] == ai_report_bytes(false, second)[i] <==> i != 3,
{
}

/// A product string that names the link decides, whatever product ids are configured.
pub proof fn law_product_string_decides(
    product: Seq<char>,
    wired: Set<u16>,
    wireless: Set<u16>,
    pid: u16,
)
    ensures
        text::occurs(text::lowered(product), "2.4g"@) ==> link_of(product, wired, wireless, pid)
            == LinkKind::Wireless,
        !text::occurs(text::lowered(product), "2.4g"@) && text::occurs(
            text::lowered(product),
            "mouse"@,
        ) ==> link_of(product, wired, wireless, pid) == LinkKind::Wired,
{
}

/// The three words for a kind of link differ, so that the word tells the kind and its label.
pub proof fn law_words_tell_kinds(k: LinkKind, l: LinkKind)
    ensures
        link_word(k) == link_word(l) <==> k == l,
{
    reveal_strlit("wired");
    reveal_strlit("wireless");
    reveal_strlit("unknown");
    assert("wired"@.len() == 5 && "wireless"@.len() == 8 && "unknown"@.len() == 7);
}

/// The place of a kind of link in the order of trial.
pub open spec fn rank(k: LinkKind) -> int {
    match k {
        LinkKind::Wired => 0,
        LinkKind::Wireless => 1,
        LinkKind::Unknown => 2,
    }
}

proof fn lemma_of_kind(
    links: Seq<AjazzDevice>,
    wired: Set<u16>,
    wireless: Set<u16>,
    exclude: Option<Seq<char>>,
    k: LinkKind,
    i: int,
)
    requires
        0 <= i < of_kind(links, wired, wireless, exclude, k).len(),
    ensures
        device_kind(of_kind(links, wired, wireless, exclude, k)[i], wired, wireless) == k,
        exclude != Some(of_kind(links, wired, wireless, exclude, k)[i].path@),
        links.contains(of_kind(links, wired, wireless, exclude, k)[i]),
{
    let p = |d: AjazzDevice|
        exclude != Some(d.path@) && device_kind(d, wired, wireless) == k;
    links.lemma_filter_pred(p, i);
    links.lemma_filter_contains_rev(p, links.filter(p)[i]);
}

proof fn lemma_priority_part(
    links: Seq<AjazzDevice>,
    wired: Set<u16>,
    wireless: Set<u16>,
    exclude: Option<Seq<char>>,
    i: int,
)
    requires
        0 <= i < by_priority(links, wired, wireless, exclude).len(),
    ensures
        ({
            let n0 = of_kind(links, wired, wireless, exclude, LinkKind::Wired).len();
            let n1 = of_kind(links, wired, wireless, exclude, LinkKind::Wireless).len();
            let d = by_priority(links, wired, wireless, exclude)[i];
            &&& rank(device_kind(d, wired, wireless)) == (if i < n0 {
                0int
            } else if i < n0 + n1 {
                1
            } else {
                2
            })
            &&& exclude != Some(d.path@)
            &&& links.contains(d)
        }),
{
    let n0 = of_kind(links, wired, wireless, exclude, LinkKind::Wired).len() as int;
    let n1 = of_kind(links, wired, wireless, exclude, LinkKind::Wireless).len() as int;
    if i < n0 {
        lemma_of_kind(links, wired, wireless, exclude, LinkKind::Wired, i);
    } else if i < n0 + n1 {
        lemma_of_kind(links, wired, wireless, exclude, LinkKind::Wireless, i - n0);
    } else {
        lemma_of_kind(links, wired, wireless, exclude, LinkKind::Unknown, i - n0 - n1);
    }
}

/// No link is tried before one of a better kind.
pub proof fn law_wired_first(
    links: Seq<AjazzDevice>,
    wired: Set<u16>,
    wireless: Set<u16>,
    exclude: Option<Seq<char>>,
    i: int,
    j: int,
)
    requires
        0 <= i <= j < by_priority(links, wired, wireless, exclude).len(),
    ensures
        rank(device_kind(by_priority(links, wired, wireless, exclude)[i], wired, wireless)) <= rank(
            device_kind(by_priority(links, wired, wireless, exclude)[j], wired, wireless),
        ),
{
    lemma_priority_part(links, wired, wireless, exclude, i);
    lemma_priority_part(links, wired, wireless, exclude, j);
}

/// The links that are tried are exactly those that were found and are not excluded.
pub proof fn law_priority_complete(
    links: Seq<AjazzDevice>,
    wired: Set<u16>,
    wireless: Set<u16>,
    exclude: Option<Seq<char>>,
    d: AjazzDevice,
)
    ensures
        by_priority(links, wired, wireless, exclude).contains(d) <==> links.contains(d) && exclude
            != Some(d.path@),
{
    let out = by_priority(links, wired, wireless, exclude);
    if out.contains(d) {
        let i = choose|i: int| 0 <= i < out.len() && out[i] == d;
        lemma_priority_part(links, wired, wireless, exclude, i);
    }
    if links.contains(d) && exclude != Some(d.path@) {
        let k = device_kind(d, wired, wireless);
        let p = |d: AjazzDevice|
            exclude != Some(d.path@) && device_kind(d, wired, wireless) == k;
        let i = choose|i: int| 0 <= i < links.len() && links[i] == d;
        links.lemma_filter_contains(p, i);
        let part = of_kind(links, wired, wireless, exclude, k);
        let j = choose|j: int| 0 <= j < part.len() && part[j] == d;
        let n0 = of_kind(links, wired, wireless, exclude, LinkKind::Wired).len() as int;
        let n1 = of_kind(links, wired, wireless, exclude, LinkKind::Wireless).len() as int;
        match k {
            LinkKind::Wired => {
                assert(out[j] == d);
            },
            LinkKind::Wireless => {
                assert(out[n0 + j] == d);
            },
            LinkKind::Unknown => {
                assert(out[n0 + n1 + j] == d);
            },
        }
    }
}

proof fn lemma_unique(s: Seq<Seq<char>>)
    ensures
        unique(s).no_duplicates(),
        forall|p: Seq<char>| #[trigger] unique(s).contains(p) <==> s.contains(p),
    decreases s.len(),
{
    if s.len() > 0 {
        let front = unique(s.drop_last());
        lemma_unique(s.drop_last());
        assert forall|p: Seq<char>| #[trigger] unique(s).contains(p) <==> s.contains(p) by {
            if s.contains(p) {
                let i = choose|i: int| 0 <= i < s.len() && s[i] == p;
                if i < s.len() - 1 {
                    assert(s.drop_last()[i] == p);
                    assert(front.contains(p));
                    let j = choose|j: int| 0 <= j < front.len() && front[j] == p;
                    assert(unique(s)[j] == p);
                } else if !front.contains(p) {
                    assert(unique(s)[front.len() as int] == p);
                }
            }
            if unique(s).contains(p) {
                let j = choose|j: int| 0 <= j < unique(s).len() && unique(s)[j] == p;
                if j < front.len() {
                    assert(front.contains(p));
                    assert(s.drop_last().contains(p));
                    let i = choose|i: int| 0 <= i < s.drop_last().len() && s.drop_last()[i] == p;
                    assert(s[i] == p);
                } else {
                    assert(s[s.len() - 1] == p);
                }
            }
        }
    }
}

/// No path is tried twice as the command channel.
pub proof fn law_command_paths_distinct(list: Seq<HidInterface>, audio_pid: Option<u16>)
    ensures
        command_paths(list, audio_pid).no_duplicates(),
{
    if let Some(pid) = audio_pid {
        lemma_unique(
            paths_of(list, Pick::Page(pid, 0xFFA0)) + paths_of(list, Pick::Page(pid, 0xFFB1))
                + paths_of(list, Pick::Page(pid, 0xFFDF)) + paths_of(list, Pick::Other(pid)),
        );
    }
}

proof fn lemma_paths_of(list: Seq<HidInterface>, which: Pick, p: Seq<char>)
    requires
        paths_of(list, which).contains(p),
    ensures
        exists|i: int|
            0 <= i < list.len() && picked(#[trigger] list[i], which) && list[i].path@ == p,
{
    let q = |h: HidInterface| picked(h, which);
    let hits = list.filter(q);
    let j = choose|j: int| 0 <= j < paths_of(list, which).len() && paths_of(list, which)[j] == p;
    list.lemma_filter_pred(q, j);
    list.lemma_filter_contains_rev(q, hits[j]);
    let i = choose|i: int| 0 <= i < list.len() && list[i] == hits[j];
    assert(picked(list[i], which));
}

/// Only interfaces of supported mice are tried as the command channel, and never the audio
/// interface.
pub proof fn law_command_paths_ours(
    list: Seq<HidInterface>,
    audio_pid: Option<u16>,
    p: Seq<char>,
)
    requires
        command_paths(list, audio_pid).contains(p),
    ensures
        exists|i: int|
            0 <= i < list.len() && is_ours(#[trigger] list[i]) && list[i].path@ == p
                && list[i].usage_page != AUDIO_USAGE_PAGE,
{
    let paths = command_paths(list, audio_pid);
    let own_case = audio_pid is Some && own_command_paths(list, audio_pid->0).len() > 0;
    if own_case {
        let pid = audio_pid->0;
        let a = paths_of(list, Pick::Page(pid, 0xFFA0));
        let b = paths_of(list, Pick::Page(pid, 0xFFB1));
        let c = paths_of(list, Pick::Page(pid, 0xFFDF));
        let d = paths_of(list, Pick::Other(pid));
        lemma_unique(a + b + c + d);
        assert((a + b + c + d).contains(p));
        let j = choose|j: int| 0 <= j < (a + b + c + d).len() && (a + b + c + d)[j] == p;
        if j < a.len() {
            assert(a[j] == p);
            lemma_paths_of(list, Pick::Page(pid, 0xFFA0), p);
        } else if j < a.len() + b.len() {
            assert(b[j - a.len()] == p);
            lemma_paths_of(list, Pick::Page(pid, 0xFFB1), p);
        } else if j < a.len() + b.len() + c.len() {
            assert(c[j - a.len() - b.len()] == p);
            lemma_paths_of(list, Pick::Page(pid, 0xFFDF), p);
        } else {
            assert(d[j - a.len() - b.len() - c.len()] == p);
            lemma_paths_of(list, Pick::Other(pid), p);
        }
    } else {
        let a = paths_of(list, Pick::AnyPid(0xFFA0));
        let b = paths_of(list, Pick::AnyPid(0xFFB1));
        let c = paths_of(list, Pick::AnyPid(0xFFDF));
        assert(p == (a + b + c)[0]);
        if a.len() > 0 {
            assert(a[0] == p);
            lemma_paths_of(list, Pick::AnyPid(0xFFA0), p);
        } else if b.len() > 0 {
            assert(b[0] == p);
            lemma_paths_of(list, Pick::AnyPid(0xFFB1), p);
        } else {
            assert(c[0] == p);
            lemma_paths_of(list, Pick::AnyPid(0xFFDF), p);
        }
    }
}

/// Only audio interfaces of supported mice become audio links.
pub proof fn law_audio_links_ours(list: Seq<HidInterface>, d: AjazzDevice)
    requires
        audio_links(list).contains(d),
    ensures
        exists|i: int|
            0 <= i < list.len() && is_audio(#[trigger] list[i]) && device_of(list[i]) == d,
{
    let q = |h: HidInterface| is_audio(h);
    let hits = list.filter(q);
    let j = choose|j: int| 0 <= j < audio_links(list).len() && audio_links(list)[j] == d;
    list.lemma_filter_pred(q, j);
    list.lemma_filter_contains_rev(q, hits[j]);
    let i = choose|i: int| 0 <= i < list.len() && list[i] == hits[j];
    assert(is_audio(list[i]));
}

/// A command report, byte by byte: the report id 0x0B, the command, what goes with it in order, and
/// zeros to the end.
pub proof fn law_packet_bytes(c: u8, tail: Seq<u8>, i: int)
    requires
        2 <= i < 64,
    ensures
        packet(c, tail).len() == 64,
        packet(c, tail)[0] == 0x0B,
        packet(c, tail)[1] == c,
        i - 2 < tail.len() ==> packet(c, tail)[i] == tail[i - 2],
        i - 2 >= tail.len() ==> packet(c, tail)[i] == 0,
{
}

/// The commands of the activation sequence, one by one. All but the last carry nothing.
pub proof fn law_arm_commands(k: int, i: int)
    requires
        0 <= k < 7,
        2 <= i < 64,
    ensures
        arm_seq().len() == 8,
        arm_seq()[0][1] == 0x13,
        arm_seq()[1][1] == 0x13,
        arm_seq()[2][1] == 0x14,
        arm_seq()[3][1] == 0x15,
        arm_seq()[4][1] == 0x17,
        arm_seq()[5][1] == 0x19,
        arm_seq()[6][1] == 0x51,
        arm_seq()[7][1] == 0x55,
        arm_seq()[k][i] == 0,
        arm_seq()[7][2] == 0x1A && arm_seq()[7][3] == 0x18,
        arm_seq()[7][4] == 1 && arm_seq()[7][5] == 1 && arm_seq()[7][8] == 2,
        arm_seq()[7][11] == 4 && arm_seq()[7][14] == 8 && arm_seq()[7][15] == 1,
        arm_seq()[7][17] == 0x10 && arm_seq()[7][18] == 2 && arm_seq()[7][20] == 0x20,
        arm_seq()[7][23] == 0x40 && arm_seq()[7][26] == 0x80,
        !(i <= 5 || i == 8 || i == 11 || i == 14 || i == 15 || i == 17 || i == 18 || i == 20 || i
            == 23 || i == 26) ==> arm_seq()[7][i] == 0,
{
    assert(arm_tail().len() == 26);
}

/// A report that switches AI voice, byte by byte: byte 3 says on or off, byte 4 whether it is the
/// second of the two.
pub proof fn law_ai_report_bytes(on: bool, second: bool, i: int)
    requires
        0 <= i < 64,
    ensures
        ({
            let b = ai_report_bytes(on, second);
            &&& b.len() == 64
            &&& b[0] == 0x0B && b[1] == 0x55 && b[2] == 0x1A && b[5] == 1
            &&& b[3] == 0x10 <==> on
            &&& b[3] == 0x08 <==> !on
            &&& b[4] == 1 <==> second
            &&& b[4] == 0 <==> !second
            &&& b[8] == 2 && b[11] == 4 && b[14] == 8 && b[15] == 1 && b[17] == 0x10 && b[20]
                == 0x20 && b[23] == 0x40 && b[26] == 0x80
            &&& !(i <= 5 || i == 8 || i == 11 || i == 14 || i == 15 || i == 17 || i == 20 || i == 23
                || i == 26) ==> b[i] == 0
        }),
{
    assert(ai_payload().len() == 22);
}

/// "2.4G" anywhere in the product string, in either case, makes a link wireless; "Mouse" makes it
/// wired where "2.4G" is nowhere.
pub proof fn law_link_by_name(
    before: Seq<char>,
    behind: Seq<char>,
    wired: Set<u16>,
    wireless: Set<u16>,
    pid: u16,
)
    ensures
        link_of(before + "2.4G"@ + behind, wired, wireless, pid) == LinkKind::Wireless,
        link_of(before + "2.4g"@ + behind, wired, wireless, pid) == LinkKind::Wireless,
        !text::occurs(text::lowered(before + "Mouse"@ + behind), "2.4g"@) ==> link_of(
            before + "Mouse"@ + behind,
            wired,
            wireless,
            pid,
        ) == LinkKind::Wired,
{
    reveal_strlit("2.4G");
    reveal_strlit("2.4g");
    reveal_strlit("Mouse");
    reveal_strlit("mouse");
    let (a, b) = (text::lowered(before), text::lowered(behind));
    assert(text::lowered("2.4G"@) =~= "2.4g"@);
    assert(text::lowered("2.4g"@) =~= "2.4g"@);
    assert(text::lowered("Mouse"@) =~= "mouse"@);
    assert(text::lowered(before + "2.4G"@ + behind) =~= a + text::lowered("2.4G"@) + b);
    assert(text::lowered(before + "2.4g"@ + behind) =~= a + text::lowered("2.4g"@) + b);
    assert(text::lowered(before + "Mouse"@ + behind) =~= a + text::lowered("Mouse"@) + b);
    text::law_occurs_between(a, "2.4g"@, b);
    text::law_occurs_between(a, "mouse"@, b);
}

/// Where the product string tells nothing, the configured product ids do: first those for the
/// cable, then those for the receiver. A link that is in neither list is unknown.
pub proof fn law_link_by_pid(product: Seq<char>, wired: Set<u16>, wireless: Set<u16>, pid: u16)
    requires
        !text::occurs(text::lowered(product), "2.4g"@),
        !text::occurs(text::lowered(product), "mouse"@),
    ensures
        link_of(product, wired, wireless, pid) == LinkKind::Wired <==> wired.contains(pid),
        link_of(product, wired, wireless, pid) == LinkKind::Wireless <==> wireless.contains(pid)
            && !wired.contains(pid),
        link_of(product, wired, wireless, pid) == LinkKind::Unknown <==> !wireless.contains(pid)
            && !wired.contains(pid),
{
}

/// What each kind of link is called.
pub proof fn law_link_names()
    ensures
        link_word(LinkKind::Wired) == "wired"@ && link_label(LinkKind::Wired) == "有线"@,
        link_word(LinkKind::Wireless) == "wireless"@ && link_label(LinkKind::Wireless) == "无线"@,
        link_word(LinkKind::Unknown) == "unknown"@ && link_label(LinkKind::Unknown) == "未知"@,
{
}

/// An interface carries audio exactly where it has the vendor id of the mouse, a supported product
/// id and the usage page 0xFFAA. Its link has its path, product id and product string.
pub proof fn law_audio_interface(h: HidInterface)
    ensures
        is_ours(h) <==> h.vid == 0x363C && devices::supported(h.pid),
        is_audio(h) <==> h.vid == 0x363C && devices::supported(h.pid) && h.usage_page == 0xFFAA,
        device_of(h).path == h.path,
        device_of(h).product_id == h.pid,
        device_of(h).product_string == h.product,
{
}

/// The audio links of two lists in a row are those of the first and then those of the second; one
/// interface gives its own link where it carries audio, else none.
pub proof fn law_audio_links_in_order(a: Seq<HidInterface>, b: Seq<HidInterface>, h: HidInterface)
    ensures
        audio_links(a + b) == audio_links(a) + audio_links(b),
        h.vid == 0x363C && devices::supported(h.pid) && h.usage_page == 0xFFAA ==> audio_links(
            seq![h],
        ) == seq![
            AjazzDevice { path: h.path, product_id: h.pid, product_string: h.product },
        ],
        !(h.vid == 0x363C && devices::supported(h.pid) && h.usage_page == 0xFFAA) ==> audio_links(
            seq![h],
        ) == Seq::<AjazzDevice>::empty(),
{
    let p = |h: HidInterface| is_audio(h);
    let f = |h: HidInterface| device_of(h);
    Seq::filter_distributes_over_add(a, b, p);
    assert((a.filter(p) + b.filter(p)).map_values(f) =~= a.filter(p).map_values(f) + b.filter(
        p,
    ).map_values(f));
    reveal(Seq::filter);
    reveal_with_fuel(Seq::filter, 2);
    assert(seq![h].drop_last() =~= Seq::<HidInterface>::empty());
    if is_audio(h) {
        assert(audio_links(seq![h]) =~= seq![device_of(h)]);
    } else {
        assert(audio_links(seq![h]) =~= Seq::<AjazzDevice>::empty());
    }
}

/// Links of one kind keep the order in which they are listed.
pub proof fn law_same_kind_in_order(
    a: Seq<AjazzDevice>,
    b: Seq<AjazzDevice>,
    wired: Set<u16>,
    wireless: Set<u16>,
    exclude: Option<Seq<char>>,
    k: LinkKind,
)
    requires
        forall|i: int|
            0 <= i < (a + b).len() ==> link_of(
                (#[trigger] (a + b)[i]).product_string@,
                wired,
                wireless,
                (a + b)[i].product_id,
            ) == k,
    ensures
        by_priority(a + b, wired, wireless, exclude) == by_priority(a, wired, wireless, exclude)
            + by_priority(b, wired, wireless, exclude),
{
    assert forall|l: LinkKind|
        #![trigger of_kind(a, wired, wireless, exclude, l)]
        l != k implies of_kind(a, wired, wireless, exclude, l).len() == 0 && of_kind(
        b,
        wired,
        wireless,
        exclude,
        l,
    ).len() == 0 && of_kind(a + b, wired, wireless, exclude, l).len() == 0 by {
        let p = |d: AjazzDevice| exclude != Some(d.path@) && device_kind(d, wired, wireless) == l;
        assert forall|i: int| 0 <= i < a.len() implies !#[trigger] p(a[i]) by {
            assert((a + b)[i] == a[i]);
        }
        assert forall|i: int| 0 <= i < b.len() implies !#[trigger] p(b[i]) by {
            assert((a + b)[a.len() + i] == b[i]);
        }
        a.lemma_all_neg_filter_empty(p);
        b.lemma_all_neg_filter_empty(p);
        Seq::filter_distributes_over_add(a, b, p);
    }
    let p = |d: AjazzDevice| exclude != Some(d.path@) && device_kind(d, wired, wireless) == k;
    Seq::filter_distributes_over_add(a, b, p);
    assert(of_kind(a + b, wired, wireless, exclude, k) == of_kind(a, wired, wireless, exclude, k)
        + of_kind(b, wired, wireless, exclude, k));
    let w = of_kind(a, wired, wireless, exclude, LinkKind::Wired);
    let r = of_kind(a, wired, wireless, exclude, LinkKind::Wireless);
    let u = of_kind(a, wired, wireless, exclude, LinkKind::Unknown);
    assert(by_priority(a + b, wired, wireless, exclude) =~= by_priority(
        a,
        wired,
        wireless,
        exclude,
    ) + by_priority(b, wired, wireless, exclude));
}

/// What each search looks for, by vendor id, product id, usage page and usage.
pub proof fn law_picked(h: HidInterface, pid: u16, page: u16)
    ensures
        picked(h, Pick::Page(pid, page)) <==> h.vid == 0x363C && devices::supported(h.pid) && h.pid
            == pid && h.usage_page == page,
        picked(h, Pick::AnyPid(page)) <==> h.vid == 0x363C && devices::supported(h.pid)
            && h.usage_page == page,
        picked(h, Pick::Other(pid)) <==> h.vid == 0x363C && devices::supported(h.pid) && h.pid
            == pid && h.usage_page != 0xFFAA && h.usage_page != 1,
        picked(h, Pick::Control(pid)) <==> h.vid == 0x363C && devices::supported(h.pid) && h.pid
            == pid && h.usage_page == 0xFFA0 && h.usage == 2,
{
}

/// A search goes through the list in order and gives the path of every interface that it looks
/// for.
pub proof fn law_paths_in_order(
    a: Seq<HidInterface>,
    b: Seq<HidInterface>,
    h: HidInterface,
    which: Pick,
)
    ensures
        paths_of(a + b, which) == paths_of(a, which) + paths_of(b, which),
        picked(h, which) ==> paths_of(seq![h], which) == seq![h.path@],
        !picked(h, which) ==> paths_of(seq![h], which) == Seq::<Seq<char>>::empty(),
{
    let p = |h: HidInterface| picked(h, which);
    let f = |h: HidInterface| h.path@;
    Seq::filter_distributes_over_add(a, b, p);
    assert((a.filter(p) + b.filter(p)).map_values(f) =~= a.filter(p).map_values(f) + b.filter(
        p,
    ).map_values(f));
    reveal(Seq::filter);
    reveal_with_fuel(Seq::filter, 2);
    assert(seq![h].drop_last() =~= Seq::<HidInterface>::empty());
    if picked(h, which) {
        assert(paths_of(seq![h], which) =~= seq![h.path@]);
    } else {
        assert(paths_of(seq![h], which) =~= Seq::<Seq<char>>::empty());
    }
}

proof fn lemma_path_found(list: Seq<HidInterface>, which: Pick, i: int)
    requires
        0 <= i < list.len(),
        picked(list[i], which),
    ensures
        paths_of(list, which).contains(list[i].path@),
{
    let p = |h: HidInterface| picked(h, which);
    list.lemma_filter_contains(p, i);
    let hits = list.filter(p);
    let j = choose|j: int| 0 <= j < hits.len() && hits[j] == list[i];
    assert(paths_of(list, which)[j] == list[i].path@);
}

proof fn lemma_first_path(list: Seq<HidInterface>, which: Pick, i: int)
    requires
        0 <= i < list.len(),
        picked(list[i], which),
        forall|j: int| 0 <= j < i ==> !picked(#[trigger] list[j], which),
    ensures
        paths_of(list, which).len() > 0,
        paths_of(list, which)[0] == list[i].path@,
{
    let p = |h: HidInterface| picked(h, which);
    let a = list.take(i);
    let h = list[i];
    let b = list.skip(i + 1);
    law_paths_in_order(a, seq![h] + b, h, which);
    law_paths_in_order(seq![h], b, h, which);
    assert(list =~= a + (seq![h] + b));
    a.lemma_all_neg_filter_empty(p);
    assert(paths_of(a, which) =~= Seq::<Seq<char>>::empty());
}

proof fn lemma_no_path(list: Seq<HidInterface>, which: Pick)
    requires
        forall|j: int| 0 <= j < list.len() ==> !picked(#[trigger] list[j], which),
    ensures
        paths_of(list, which).len() == 0,
{
    list.lemma_all_neg_filter_empty(|h: HidInterface| picked(h, which));
}

/// Every interface of the mouse but its audio and its desktop ones is tried as the command
/// channel, and then no interface of another mouse is.
pub proof fn law_own_channels_tried(list: Seq<HidInterface>, pid: u16, i: int)
    requires
        0 <= i < list.len(),
        list[i].vid == 0x363C,
        list[i].pid == pid,
        devices::supported(pid),
        list[i].usage_page != 0xFFAA,
        list[i].usage_page != 1,
    ensures
        command_paths(list, Some(pid)).contains(list[i].path@),
        forall|p: Seq<char>|
            #[trigger] command_paths(list, Some(pid)).contains(p) ==> exists|k: int|
                0 <= k < list.len() && (#[trigger] list[k]).pid == pid && list[k].path@ == p
                    && list[k].vid == 0x363C,
{
    let a = paths_of(list, Pick::Page(pid, 0xFFA0));
    let b = paths_of(list, Pick::Page(pid, 0xFFB1));
    let c = paths_of(list, Pick::Page(pid, 0xFFDF));
    let d = paths_of(list, Pick::Other(pid));
    lemma_unique(a + b + c + d);
    lemma_path_found(list, Pick::Other(pid), i);
    let j = choose|j: int| 0 <= j < d.len() && d[j] == list[i].path@;
    assert((a + b + c + d)[a.len() + b.len() + c.len() + j] == list[i].path@);
    assert(own_command_paths(list, pid).contains(list[i].path@));
    assert forall|p: Seq<char>| #[trigger]
        command_paths(list, Some(pid)).contains(p) implies exists|k: int|
        0 <= k < list.len() && (#[trigger] list[k]).pid == pid && list[k].path@ == p && list[k].vid
            == 0x363C by {
        let all = a + b + c + d;
        assert(all.contains(p));
        let j = choose|j: int| 0 <= j < all.len() && all[j] == p;
        if j < a.len() {
            assert(a[j] == p);
            lemma_paths_of(list, Pick::Page(pid, 0xFFA0), p);
        } else if j < a.len() + b.len() {
            assert(b[j - a.len()] == p);
            lemma_paths_of(list, Pick::Page(pid, 0xFFB1), p);
        } else if j < a.len() + b.len() + c.len() {
            assert(c[j - a.len() - b.len()] == p);
            lemma_paths_of(list, Pick::Page(pid, 0xFFDF), p);
        } else {
            assert(d[j - a.len() - b.len() - c.len()] == p);
            lemma_paths_of(list, Pick::Other(pid), p);
        }
    }
}

proof fn lemma_unique_prefix(x: Seq<Seq<char>>, y: Seq<Seq<char>>)
    ensures
        unique(x).is_prefix_of(unique(x + y)),
    decreases y.len(),
{
    if y.len() == 0 {
        assert(x + y =~= x);
    } else {
        lemma_unique_prefix(x, y.drop_last());
        assert((x + y).drop_last() =~= x + y.drop_last());
    }
}

proof fn lemma_unique_order(x: Seq<Seq<char>>, y: Seq<Seq<char>>, p: Seq<char>, q: Seq<char>)
    requires
        x.contains(p),
        !x.contains(q),
        y.contains(q),
    ensures
        comes_before(unique(x + y), p, q),
{
    lemma_unique_prefix(x, y);
    lemma_unique(x);
    lemma_unique(x + y);
    let u = unique(x + y);
    assert(unique(x).contains(p));
    let m = choose|m: int| 0 <= m < unique(x).len() && unique(x)[m] == p;
    let k = choose|k: int| 0 <= k < y.len() && y[k] == q;
    assert((x + y)[x.len() + k] == q);
    assert(u.contains(q));
    let n = choose|n: int| 0 <= n < u.len() && u[n] == q;
    assert(u[m] == p);
    if n < unique(x).len() {
        assert(unique(x)[n] == q);
        assert(unique(x).contains(q));
    }
    assert(m < n && u[m] == p && u[n] == q);
}

/// `p` stands in the row before `q`.
pub open spec fn comes_before(s: Seq<Seq<char>>, p: Seq<char>, q: Seq<char>) -> bool {
    exists|m: int, n: int| 0 <= m < n < s.len() && #[trigger] s[m] == p && #[trigger] s[n] == q
}

/// The command channels of a mouse are tried by usage page: 0xFFA0, then 0xFFB1, then 0xFFDF,
/// then the rest. Two interfaces with the same path are one to this order.
pub proof fn law_channel_order(list: Seq<HidInterface>, pid: u16, i: int, j: int)
    requires
        0 <= i < list.len(),
        0 <= j < list.len(),
        devices::supported(pid),
        list[i].vid == 0x363C && list[i].pid == pid,
        list[j].vid == 0x363C && list[j].pid == pid,
        list[j].usage_page != 0xFFAA && list[j].usage_page != 1,
        forall|k: int| 0 <= k < list.len() && (#[trigger] list[k]).path@ == list[j].path@ ==> k == j,
        list[j].usage_page != 0xFFA0,
        list[i].usage_page == 0xFFA0 || (list[i].usage_page == 0xFFB1 && list[j].usage_page
            != 0xFFB1) || (list[i].usage_page == 0xFFDF && list[j].usage_page != 0xFFB1
            && list[j].usage_page != 0xFFDF),
    ensures
        comes_before(command_paths(list, Some(pid)), list[i].path@, list[j].path@),
{
    let (p, q) = (list[i].path@, list[j].path@);
    let a = paths_of(list, Pick::Page(pid, 0xFFA0));
    let b = paths_of(list, Pick::Page(pid, 0xFFB1));
    let c = paths_of(list, Pick::Page(pid, 0xFFDF));
    let d = paths_of(list, Pick::Other(pid));
    let page = list[i].usage_page;
    if a.contains(q) {
        lemma_paths_of(list, Pick::Page(pid, 0xFFA0), q);
    }
    if b.contains(q) {
        lemma_paths_of(list, Pick::Page(pid, 0xFFB1), q);
    }
    if c.contains(q) {
        lemma_paths_of(list, Pick::Page(pid, 0xFFDF), q);
    }
    lemma_path_found(list, Pick::Page(pid, page), i);
    lemma_path_found(list, Pick::Other(pid), j);
    let own = own_command_paths(list, pid);
    if page == 0xFFA0 {
        assert(a + b + c + d =~= a + (b + c + d));
        lemma_in_sum(b + c, d, q);
        lemma_unique_order(a, b + c + d, p, q);
    } else if page == 0xFFB1 {
        assert(a + b + c + d =~= (a + b) + (c + d));
        lemma_in_sum(a, b, p);
        lemma_in_sum(a, b, q);
        lemma_in_sum(c, d, q);
        lemma_unique_order(a + b, c + d, p, q);
    } else {
        lemma_in_sum(a + b, c, p);
        lemma_in_sum(a + b, c, q);
        lemma_in_sum(a, b, q);
        lemma_unique_order(a + b + c, d, p, q);
    }
    assert(own.len() > 0);
}

proof fn lemma_in_sum(x: Seq<Seq<char>>, y: Seq<Seq<char>>, p: Seq<char>)
    ensures
        (x + y).contains(p) <==> x.contains(p) || y.contains(p),
{
    if x.contains(p) {
        let i = choose|i: int| 0 <= i < x.len() && x[i] == p;
        assert((x + y)[i] == p);
    }
    if y.contains(p) {
        let i = choose|i: int| 0 <= i < y.len() && y[i] == p;
        assert((x + y)[x.len() + i] == p);
    }
}

/// Where no audio link is known, the one command channel that is tried is the first interface of a
/// supported mouse with usage page 0xFFA0, else with 0xFFB1, else with 0xFFDF.
pub proof fn law_any_channel(list: Seq<HidInterface>, i: int, page: u16)
    requires
        0 <= i < list.len(),
        list[i].vid == 0x363C,
        devices::supported(list[i].pid),
        list[i].usage_page == page,
        page == 0xFFA0 || page == 0xFFB1 || page == 0xFFDF,
        forall|j: int|
            0 <= j < list.len() && (#[trigger] list[j]).vid == 0x363C && devices::supported(
                list[j].pid,
            ) ==> (list[j].usage_page == page ==> j >= i) && (page != 0xFFA0
                ==> list[j].usage_page != 0xFFA0) && (page == 0xFFDF ==> list[j].usage_page
                != 0xFFB1),
    ensures
        command_paths(list, None) == seq![list[i].path@],
{
    let a = paths_of(list, Pick::AnyPid(0xFFA0));
    let b = paths_of(list, Pick::AnyPid(0xFFB1));
    let c = paths_of(list, Pick::AnyPid(0xFFDF));
    lemma_first_path(list, Pick::AnyPid(page), i);
    if page != 0xFFA0 {
        lemma_no_path(list, Pick::AnyPid(0xFFA0));
    }
    if page == 0xFFDF {
        lemma_no_path(list, Pick::AnyPid(0xFFB1));
    }
    assert((a + b + c)[0] == list[i].path@);
    assert(command_paths(list, None) =~= seq![list[i].path@]);
}

/// A mouse without a channel of its own is served like an unknown one, and without any interface
/// that could do there is nothing to try.
pub proof fn law_channel_fallback(list: Seq<HidInterface>, pid: u16)
    requires
        forall|j: int|
            0 <= j < list.len() && (#[trigger] list[j]).vid == 0x363C && devices::supported(
                list[j].pid,
            ) && list[j].pid == pid ==> list[j].usage_page == 0xFFAA || list[j].usage_page == 1,
    ensures
        command_paths(list, Some(pid)) == command_paths(list, None),
        (forall|j: int|
            0 <= j < list.len() && (#[trigger] list[j]).vid == 0x363C && devices::supported(
                list[j].pid,
            ) ==> list[j].usage_page != 0xFFA0 && list[j].usage_page != 0xFFB1
                && list[j].usage_page != 0xFFDF) ==> command_paths(list, None).len() == 0,
{
    lemma_no_path(list, Pick::Page(pid, 0xFFA0));
    lemma_no_path(list, Pick::Page(pid, 0xFFB1));
    lemma_no_path(list, Pick::Page(pid, 0xFFDF));
    lemma_no_path(list, Pick::Other(pid));
    if forall|j: int|
        0 <= j < list.len() && (#[trigger] list[j]).vid == 0x363C && devices::supported(list[j].pid)
            ==> list[j].usage_page != 0xFFA0 && list[j].usage_page != 0xFFB1 && list[j].usage_page
            != 0xFFDF {
        lemma_no_path(list, Pick::AnyPid(0xFFA0));
        lemma_no_path(list, Pick::AnyPid(0xFFB1));
        lemma_no_path(list, Pick::AnyPid(0xFFDF));
    }
}

/// A status report gives its byte 18 as the level; it says charging exactly where byte 17 is not
/// zero. Any report that is shorter or starts otherwise gives nothing.
pub proof fn law_battery_bytes(buf: Seq<u8>)
    ensures
        battery_of(buf) is Some <==> buf.len() >= 19 && buf[0] == 0x0A && buf[1] == 0x13,
        battery_of(buf) matches Some(b) ==> b.0 == buf[18] && (b.1 <==> buf[17] != 0),
{
}

/// A key report tells the forward key by 8, the backward key by 4 and the release by 0 in its
/// byte 1, and hands on any other value with the byte behind it.
pub proof fn law_key_bytes(buf: Seq<u8>)
    ensures
        key_report_of(buf) is Some <==> buf.len() >= 3 && buf[0] == 0x0C,
        key_report_of(buf) == Some(KeyReport::Forward) <==> buf.len() >= 3 && buf[0] == 0x0C
            && buf[1] == 8,
        key_report_of(buf) == Some(KeyReport::Backward) <==> buf.len() >= 3 && buf[0] == 0x0C
            && buf[1] == 4,
        key_report_of(buf) == Some(KeyReport::Released) <==> buf.len() >= 3 && buf[0] == 0x0C
            && buf[1] == 0,
        key_report_of(buf) matches Some(KeyReport::Other(a, b)) ==> a == buf[1] && b == buf[2],
{
}

/// In the device list an interface with the vendor id of the mouse is marked, with its kind of
/// link where the product string tells it, and one with the usage page 0xFFAA is marked as audio.
pub proof fn law_interface_marks(h: HidInterface)
    ensures
        h.vid != 0x363C && h.usage_page != 0xFFAA ==> interface_mark(h).len() == 0,
        h.vid != 0x363C && h.usage_page == 0xFFAA ==> interface_mark(h) == "  [音频接口]"@,
        h.vid == 0x363C ==> "  <== AJAZZ"@.is_prefix_of(interface_mark(h)),
        h.vid == 0x363C && h.usage_page != 0xFFAA && text::occurs(
            text::lowered(h.product@),
            "2.4g"@,
        ) ==> interface_mark(h) == "  <== AJAZZ"@ + "  [无线]"@,
        h.vid == 0x363C && h.usage_page != 0xFFAA && !text::occurs(
            text::lowered(h.product@),
            "2.4g"@,
        ) && text::occurs(text::lowered(h.product@), "mouse"@) ==> interface_mark(h)
            == "  <== AJAZZ"@ + "  [有线]"@,
        h.vid == 0x363C && h.usage_page != 0xFFAA && !text::occurs(
            text::lowered(h.product@),
            "2.4g"@,
        ) && !text::occurs(text::lowered(h.product@), "mouse"@) ==> interface_mark(h)
            == "  <== AJAZZ"@,
        interface_mark(HidInterface { usage_page: 0xFFAA, ..h }) == interface_mark(
            HidInterface { usage_page: 0, ..h },
        ) + "  [音频接口]"@,
{
    let none = Seq::<char>::empty();
    let k = link_of(h.product@, Set::empty(), Set::empty(), h.pid);
    assert(none + none =~= none);
    assert(none + "  [音频接口]"@ =~= "  [音频接口]"@);
    assert("  <== AJAZZ"@ + none + none =~= "  <== AJAZZ"@);
    assert("  <== AJAZZ"@ + "  [有线]"@ + none =~= "  <== AJAZZ"@ + "  [有线]"@);
    assert("  <== AJAZZ"@ + "  [无线]"@ + none =~= "  <== AJAZZ"@ + "  [无线]"@);
    assert(interface_mark(HidInterface { usage_page: 0xFFAA, ..h }) =~= interface_mark(
        HidInterface { usage_page: 0, ..h },
    ) + "  [音频接口]"@);
}

/// The line of an interface gives vendor id and product id first, at fixed places, and ends with
/// manufacturer, product and mark.
pub proof fn law_interface_line(h: HidInterface)
    ensures
        interface_line(h).subrange(2, 6) == text::hex4(h.vid),
        interface_line(h).subrange(7, 11) == text::hex4(h.pid),
        exists|front: Seq<char>|
            interface_line(h) == #[trigger] (front + "  0x"@ + text::hex4(h.usage_page) + "  "@
                + h.manufacturer@ + " "@ + h.product@ + interface_mark(h)) && front.skip(15)
                == text::padded(text::signed_decimal(h.interface_number as int), 3) && front.len()
                >= 15,
{
    reveal_strlit("  ");
    reveal_strlit(" ");
    reveal_strlit("   #");
    assert("  "@.len() == 2 && " "@.len() == 1 && "   #"@.len() == 4);
    let pad = text::padded(text::signed_decimal(h.interface_number as int), 3);
    let front = "  "@ + text::hex4(h.vid) + " "@ + text::hex4(h.pid) + "   #"@ + pad;
    let line = front + "  0x"@ + text::hex4(h.usage_page) + "  "@ + h.manufacturer@ + " "@
        + h.product@ + interface_mark(h);
    assert(interface_line(h) == line);
    assert(front.len() == 15 + pad.len());
    assert(front.skip(15) =~= pad);
    assert(line.take(11) =~= front.take(11));
    assert(line.subrange(2, 6) =~= text::hex4(h.vid));
    assert(line.subrange(7, 11) =~= text::hex4(h.pid));
}

/// The device list has one line for each interface, in the order listed, between a heading and
/// three more lines.
pub proof fn law_device_list(list: Seq<HidInterface>, i: int)
    ensures
        hid_lines(list).len() == list.len() + 4,
        hid_lines(list)[0] == "HID 设备清单 (VID PID  接口  usage_page  厂商/产品):"@,
        0 <= i < list.len() ==> hid_lines(list)[i + 1] == interface_line(list[i]),
        hid_lines(list)[list.len() as int + 1] == ""@,
{
}

/// The bytes of reports, one by one, and the characters of an optional text.
pub proof fn law_plain_views(v: Seq<[u8; 64]>, i: int, s: &str)
    ensures
        report_bytes(v).len() == v.len(),
        0 <= i < v.len() ==> report_bytes(v)[i] == v[i]@,
        opt_view(Some(s)) == Some(s@),
        opt_view(None) is None,
{
}

} // verus!
