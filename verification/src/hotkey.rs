//! The linked hotkey: while the mouse's voice key is held, one key or combination of the
//! keyboard is held down too.
//!
//! The functions here decide which key strokes have to be injected, and in which order; the
//! program hands each [`Stroke`] to `SendInput` or to the Interception driver.

use crate::text;
use vstd::prelude::*;

verus! {

/// The hotkey names that can be chosen.
pub const HOTKEY_NAMES: [&'static str; 12] = [
    "L_alt",
    "R_alt",
    "R_ctrl",
    "R_shift",
    "f9",
    "f10",
    "space",
    "grave",
    "capslock",
    "R_alt+space",
    "R_alt+R_shift",
    "R_alt+R_ctrl",
];

/// The pause between pressing and releasing a tapped key, in milliseconds.
pub const TAP_PAUSE_MS: u64 = 30;

/// One key going down or up: its set-1 scan code and whether it is an extended key.
#[derive(Debug, Clone, Copy, PartialEq, Eq, Structural)]
pub struct Stroke {
    pub scancode: u8,
    pub extended: bool,
    pub keyup: bool,
}

/// Whether `name` is one of [`HOTKEY_NAMES`].
pub open spec fn listed(name: Seq<char>) -> bool {
    exists|i: int| 0 <= i < 12 && (#[trigger] HOTKEY_NAMES@[i])@ == name
}

/// Whether `name` is one of [`HOTKEY_NAMES`].
pub fn is_listed(name: &str) -> (r: bool)
    ensures
        r == listed(name@),
{
    let mut i: usize = 0;
    while i < 12
        invariant
            i <= 12,
            forall|j: int| 0 <= j < i ==> (#[trigger] HOTKEY_NAMES@[j])@ != name@,
        decreases 12 - i,
    {
        if text::same(HOTKEY_NAMES[i], name) {
            return true;
        }
        i += 1;
    }
    false
}

/// Scan code and extended flag of a single key, by either of its names.
pub open spec fn scan_of(name: Seq<char>) -> Option<(u8, bool)> {
    if name == "L_alt"@ || name == "left_alt"@ {
        Some((0x38, false))
    } else if name == "R_alt"@ || name == "right_alt"@ {
        Some((0x38, true))
    } else if name == "R_ctrl"@ || name == "right_ctrl"@ {
        Some((0x1D, true))
    } else if name == "R_shift"@ || name == "right_shift"@ {
        Some((0x36, false))
    } else if name == "f9"@ {
        Some((0x43, false))
    } else if name == "f10"@ {
        Some((0x44, false))
    } else if name == "space"@ {
        Some((0x39, false))
    } else if name == "grave"@ {
        Some((0x29, false))
    } else if name == "capslock"@ {
        Some((0x3A, false))
    } else {
        None
    }
}

fn named(name: &[char], literal: &str) -> (r: bool)
    ensures
        r == (name@ == literal@),
{
    text::same_chars(name, text::chars_of(literal).as_slice())
}

/// Scan code and extended flag of a single key.
pub fn single_scan(name: &[char]) -> (r: Option<(u8, bool)>)
    ensures
        r == scan_of(name@),
{
    if named(name, "L_alt") || named(name, "left_alt") {
        Some((0x38, false))
    } else if named(name, "R_alt") || named(name, "right_alt") {
        Some((0x38, true))
    } else if named(name, "R_ctrl") || named(name, "right_ctrl") {
        Some((0x1D, true))
    } else if named(name, "R_shift") || named(name, "right_shift") {
        Some((0x36, false))
    } else if named(name, "f9") {
        Some((0x43, false))
    } else if named(name, "f10") {
        Some((0x44, false))
    } else if named(name, "space") {
        Some((0x39, false))
    } else if named(name, "grave") {
        Some((0x29, false))
    } else if named(name, "capslock") {
        Some((0x3A, false))
    } else {
        None
    }
}

/// Every piece of `name` between plus signs, white space aside, names a key.
pub open spec fn all_known(name: Seq<char>) -> bool {
    let parts = text::split_on(name, '+');
    forall|i: int| 0 <= i < parts.len() ==> scan_of(text::trimmed(#[trigger] parts[i])) is Some
}

/// The keys of a name or combination, in the order written; `None` where a piece names none.
pub open spec fn scans_of(name: Seq<char>) -> Option<Seq<(u8, bool)>> {
    let parts = text::split_on(name, '+');
    if all_known(name) {
        Some(Seq::new(parts.len(), |i: int| scan_of(text::trimmed(parts[i]))->0))
    } else {
        None
    }
}

/// The keys of a name or of a combination such as `R_alt+space`.
pub fn hotkey_scans(name: &str) -> (r: Option<Vec<(u8, bool)>>)
    ensures
        r is Some == scans_of(name@) is Some,
        r matches Some(v) ==> scans_of(name@) == Some(v@) && v@.len() >= 1,
{
    proof {
        text::lemma_split_nonempty(name@, '+');
    }
    let parts = text::split(text::chars_of(name).as_slice(), '+');
    let ghost all = text::split_on(name@, '+');
    let mut out: Vec<(u8, bool)> = Vec::new();
    let mut i: usize = 0;
    while i < parts.len()
        invariant
            i <= parts@.len(),
            all == text::split_on(name@, '+'),
            all == text::views(parts@),
            out@.len() == i,
            forall|j: int|
                0 <= j < i ==> scan_of(text::trimmed(#[trigger] all[j])) == Some(out@[j]),
        decreases parts@.len() - i,
    {
        let part = text::trim(parts[i].as_slice());
        assert(part@ == text::trimmed(all[i as int]));
        match single_scan(part.as_slice()) {
            Some(v) => {
                out.push(v);
            },
            None => {
                return None;
            },
        }
        i += 1;
    }
    assert(scans_of(name@)->0 =~= out@);
    Some(out)
}

/// Scan code and extended flag of a single key.
pub fn hotkey_scan(name: &str) -> (r: Option<(u8, bool)>)
    ensures
        r == scan_of(name@),
{
    single_scan(text::chars_of(name).as_slice())
}

/// How strokes reach the system.
#[derive(Debug, Clone, Copy, PartialEq, Eq, Structural)]
pub enum Backend {
    SendInput,
    Interception,
}

/// Why a hotkey could not be set up.
#[derive(Debug, Clone, Copy, PartialEq, Eq, Structural)]
pub enum HotkeyError {
    /// The name is no known key or combination.
    UnknownName,
    /// The Interception driver was asked for and is not ready.
    DriverUnavailable,
}

/// What is said of a hotkey name that is not known.
pub open spec fn unknown_name(name: Seq<char>) -> Seq<char> {
    "未知热键名: "@ + name
        + " (可选: [\"L_alt\", \"R_alt\", \"R_ctrl\", \"R_shift\", \"f9\", \"f10\", \"space\", \"grave\", \"capslock\", \"R_alt+space\", \"R_alt+R_shift\", \"R_alt+R_ctrl\"])"@
}

/// What is said of a hotkey name that is not known.
pub fn unknown_name_text(name: &str) -> (out: String)
    ensures
        out@ == unknown_name(name@),
{
    let mut out = text::owned("未知热键名: ");
    out.append(name);
    out.append(
        " (可选: [\"L_alt\", \"R_alt\", \"R_ctrl\", \"R_shift\", \"f9\", \"f10\", \"space\", \"grave\", \"capslock\", \"R_alt+space\", \"R_alt+R_shift\", \"R_alt+R_ctrl\"])",
    );
    out
}

/// A hotkey and whether it is held down at present.
pub struct HotKey {
    pub scans: Vec<(u8, bool)>,
    pub down: bool,
    pub backend: Backend,
}

/// The strokes that press the keys: in order, so that modifiers come first.
pub open spec fn down_strokes(scans: Seq<(u8, bool)>) -> Seq<Stroke> {
    Seq::new(
        scans.len(),
        |i: int| Stroke { scancode: scans[i].0, extended: scans[i].1, keyup: false },
    )
}

/// The strokes that release the keys: in reverse order.
pub open spec fn up_strokes(scans: Seq<(u8, bool)>) -> Seq<Stroke> {
    Seq::new(
        scans.len(),
        |i: int|
            Stroke {
                scancode: scans[scans.len() - 1 - i].0,
                extended: scans[scans.len() - 1 - i].1,
                keyup: true,
            },
    )
}

/// The backend that a driver name selects.
pub open spec fn backend_of(driver: Seq<char>) -> Backend {
    if driver == "interception"@ {
        Backend::Interception
    } else {
        Backend::SendInput
    }
}

impl HotKey {
    /// Sets up a hotkey by name and driver. `interception_ready` says whether the Interception
    /// driver could be opened; it matters only where `driver` asks for it.
    pub fn new(name: &str, driver: &str, interception_ready: bool) -> (r: Result<
        HotKey,
        HotkeyError,
    >)
        ensures
            scans_of(name@) is None ==> r == Err::<HotKey, HotkeyError>(HotkeyError::UnknownName),
            scans_of(name@) is Some && backend_of(driver@) == Backend::Interception
                && !interception_ready ==> r == Err::<HotKey, HotkeyError>(
                HotkeyError::DriverUnavailable,
            ),
            scans_of(name@) is Some && (backend_of(driver@) == Backend::SendInput
                || interception_ready) ==> {
                &&& r matches Ok(h)
                &&& scans_of(name@) == Some(h.scans@)
                &&& !h.down
                &&& h.backend == backend_of(driver@)
            },
    {
        match hotkey_scans(name) {
            None => Err(HotkeyError::UnknownName),
            Some(scans) => {
                if text::same(driver, "interception") {
                    if interception_ready {
                        Ok(HotKey { scans, down: false, backend: Backend::Interception })
                    } else {
                        Err(HotkeyError::DriverUnavailable)
                    }
                } else {
                    Ok(HotKey { scans, down: false, backend: Backend::SendInput })
                }
            },
        }
    }

    /// The strokes of a press that finds the hotkey up; none where it is down already.
    pub open spec fn press_strokes(self) -> Seq<Stroke> {
        if self.down {
            Seq::empty()
        } else {
            down_strokes(self.scans@)
        }
    }

    /// The strokes of a release that finds the hotkey down; none where it is up already.
    pub open spec fn release_strokes(self) -> Seq<Stroke> {
        if self.down {
            up_strokes(self.scans@)
        } else {
            Seq::empty()
        }
    }

    /// Holds the hotkey down; does nothing where it is down already.
    pub fn press(&mut self) -> (out: Vec<Stroke>)
        ensures
            out@ == old(self).press_strokes(),
            *final(self) == (HotKey { down: true, ..*old(self) }),
    {
        if self.down {
            Vec::new()
        } else {
            self.down = true;
            self.inject(false)
        }
    }

    /// Lets the hotkey go; does nothing where it is up already.
    pub fn release(&mut self) -> (out: Vec<Stroke>)
        ensures
            out@ == old(self).release_strokes(),
            *final(self) == (HotKey { down: false, ..*old(self) }),
    {
        if self.down {
            self.down = false;
            self.inject(true)
        } else {
            Vec::new()
        }
    }

    /// Whether the hotkey is held down.
    pub fn is_down(&self) -> (r: bool)
        ensures
            r == self.down,
    {
        self.down
    }

    /// A short tap: the strokes that press the keys and those that release them. A pause of
    /// [`TAP_PAUSE_MS`] belongs between the two.
    pub fn tap(&mut self) -> (out: (Vec<Stroke>, Vec<Stroke>))
        ensures
            out.0@ == down_strokes(old(self).scans@),
            out.1@ == up_strokes(old(self).scans@),
            *final(self) == (HotKey { down: false, ..*old(self) }),
    {
        let press = self.inject(false);
        let lift = self.inject(true);
        self.down = false;
        (press, lift)
    }

    /// Lets the hotkey go before it is given up, so that no key stays held.
    pub fn close(&mut self) -> (out: Vec<Stroke>)
        ensures
            out@ == old(self).release_strokes(),
            *final(self) == (HotKey { down: false, ..*old(self) }),
    {
        self.release()
    }

    /// The strokes for all keys: forwards to press, backwards to release.
    fn inject(&self, keyup: bool) -> (out: Vec<Stroke>)
        ensures
            out@ == (if keyup {
                up_strokes(self.scans@)
            } else {
                down_strokes(self.scans@)
            }),
    {
        let n: usize = self.scans.len();
        let mut out: Vec<Stroke> = Vec::new();
        let mut i: usize = 0;
        while i < n
            invariant
                i <= n,
                n == self.scans@.len(),
                out@ == (if keyup {
                    up_strokes(self.scans@)
                } else {
                    down_strokes(self.scans@)
                }).take(i as int),
            decreases n - i,
        {
            let (scancode, extended) = if keyup {
                self.scans[n - 1 - i]
            } else {
                self.scans[i]
            };
            out.push(Stroke { scancode, extended, keyup });
            i += 1;
            assert(out@ =~= (if keyup {
                up_strokes(self.scans@)
            } else {
                down_strokes(self.scans@)
            }).take(i as int));
        }
        assert(out@ =~= (if keyup {
            up_strokes(self.scans@)
        } else {
            down_strokes(self.scans@)
        }));
        out
    }
}

/// Enter: down, then up.
pub open spec fn enter_strokes() -> Seq<Stroke> {
    seq![
        Stroke { scancode: 0x1C, extended: false, keyup: false },
        Stroke { scancode: 0x1C, extended: false, keyup: true },
    ]
}

/// Ctrl down, Enter down, Enter up, Ctrl up.
pub open spec fn ctrl_enter_strokes() -> Seq<Stroke> {
    seq![
        Stroke { scancode: 0x1D, extended: false, keyup: false },
        Stroke { scancode: 0x1C, extended: false, keyup: false },
        Stroke { scancode: 0x1C, extended: false, keyup: true },
        Stroke { scancode: 0x1D, extended: false, keyup: true },
    ]
}

/// The strokes of one Enter.
pub fn inject_enter() -> (out: Vec<Stroke>)
    ensures
        out@ == enter_strokes(),
{
    let out = vec![
        Stroke { scancode: 0x1C, extended: false, keyup: false },
        Stroke { scancode: 0x1C, extended: false, keyup: true },
    ];
    assert(out@ =~= enter_strokes());
    out
}

/// The strokes of one Ctrl+Enter.
pub fn inject_ctrl_enter() -> (out: Vec<Stroke>)
    ensures
        out@ == ctrl_enter_strokes(),
{
    let out = vec![
        Stroke { scancode: 0x1D, extended: false, keyup: false },
        Stroke { scancode: 0x1C, extended: false, keyup: false },
        Stroke { scancode: 0x1C, extended: false, keyup: true },
        Stroke { scancode: 0x1D, extended: false, keyup: true },
    ];
    assert(out@ =~= ctrl_enter_strokes());
    out
}

/// A stroke as `SendInput` takes it.
#[derive(Debug, Clone, Copy, PartialEq, Eq, Structural)]
pub struct KeyInput {
    pub scan: u16,
    pub flags: u32,
}

/// The `SendInput` record of a stroke: flag 0x8 for a scan code, 0x1 for an extended key, 0x2
/// for a key going up.
pub fn send_scan(scancode: u8, extended: bool, keyup: bool) -> (r: KeyInput)
    ensures
        r.scan == scancode,
        r.flags == 0x8 + (if extended {
            0x1int
        } else {
            0
        }) + (if keyup {
            0x2int
        } else {
            0
        }),
{
    let mut flags: u32 = 0x8;
    if extended {
        flags += 0x1;
    }
    if keyup {
        flags += 0x2;
    }
    KeyInput { scan: scancode as u16, flags }
}

/// The record that the Interception driver takes for a stroke: the scan code and the state,
/// each in two bytes with the low byte first, and sixteen zero bytes. State bit 0x1 stands
/// for a key going up, bit 0x2 for an extended key.
pub fn interception_stroke(scancode: u8, extended: bool, keyup: bool) -> (r: [u8; 20])
    ensures
        r@ == Seq::new(
            20,
            |i: int|
                if i == 0 {
                    scancode
                } else if i == 2 {
                    ((if keyup {
                        0x1int
                    } else {
                        0
                    }) + (if extended {
                        0x2int
                    } else {
                        0
                    })) as u8
                } else {
                    0u8
                },
        ),
{
    let up: u8 = if keyup {
        0x1
    } else {
        0x0
    };
    let ext: u8 = if extended {
        0x2
    } else {
        0x0
    };
    let mut r: [u8; 20] = [0u8; 20];
    r[0] = scancode;
    r[2] = up + ext;
    assert(r@ =~= Seq::new(
        20,
        |i: int|
            if i == 0 {
                scancode
            } else if i == 2 {
                (up + ext) as u8
            } else {
                0u8
            },
    ));
    r
}

/// `char::from_u32`: the character with this code, where the code is a Unicode scalar value.
pub assume_specification[ char::from_u32 ](i: u32) -> (r: Option<char>)
    ensures
        r == (if i < 0xD800 || (0xE000 <= i && i <= 0x10FFFF) {
            Some(i as char)
        } else {
            None
        }),
;

/// The character of one UTF-16 unit; NUL for half a surrogate pair.
pub open spec fn unit_char(u: u16) -> char {
    if 0xD800 <= u && u < 0xE000 {
        '\0'
    } else {
        u as char
    }
}

/// The text of a hardware id: the first `n` units of the buffer, one character each.
pub fn decode_hwid(buf: &[u16], n: u32) -> (out: Vec<char>)
    ensures
        out@ == Seq::new(
            if n <= buf@.len() {
                n as nat
            } else {
                buf@.len()
            },
            |i: int| unit_char(buf@[i]),
        ),
{
    let len: usize = if n as usize <= buf.len() {
        n as usize
    } else {
        buf.len()
    };
    let mut out: Vec<char> = Vec::new();
    let mut i: usize = 0;
    while i < len
        invariant
            i <= len <= buf@.len(),
            out@ == Seq::new(i as nat, |j: int| unit_char(buf@[j])),
        decreases len - i,
    {
        match char::from_u32(buf[i] as u32) {
            Some(c) => {
                out.push(c);
            },
            None => {
                out.push('\0');
            },
        }
        i += 1;
        assert(out@ =~= Seq::new(i as nat, |j: int| unit_char(buf@[j])));
    }
    out
}

/// A hardware id that belongs to the mouse itself.
pub open spec fn own_keyboard(id: Option<Vec<char>>) -> bool {
    id matches Some(v) && text::occurs(v@, "VID_363C"@)
}

/// A hardware id of a keyboard that is not the virtual one of a remote tool.
pub open spec fn real_keyboard(id: Option<Vec<char>>) -> bool {
    id matches Some(v) && !text::occurs(v@, "GVInput"@)
}

/// `i` is the first position at which `p` holds.
pub open spec fn first_at(ids: Seq<Option<Vec<char>>>, p: spec_fn(Option<Vec<char>>) -> bool, i: int) -> bool {
    0 <= i < ids.len() && p(ids[i]) && forall|j: int| 0 <= j < i ==> !p(#[trigger] ids[j])
}

/// Chooses the keyboard that strokes are sent through. `ids[i]` is the hardware id of
/// Interception device `i + 1`, or `None` where that is no usable keyboard. The keyboard of
/// the mouse comes first, then the first keyboard that is not virtual.
pub fn pick_keyboard(ids: &Vec<Option<Vec<char>>>) -> (r: Option<i32>)
    requires
        ids@.len() <= 10,
    ensures
        r matches Some(d) ==> {
            ||| first_at(ids@, |id: Option<Vec<char>>| own_keyboard(id), d - 1)
            ||| (forall|j: int| 0 <= j < ids@.len() ==> !own_keyboard(#[trigger] ids@[j]))
                && first_at(ids@, |id: Option<Vec<char>>| real_keyboard(id), d - 1)
        },
        r is None == (forall|j: int|
            0 <= j < ids@.len() ==> !own_keyboard(#[trigger] ids@[j]) && !real_keyboard(ids@[j])),
{
    let vid = text::chars_of("VID_363C");
    let virt = text::chars_of("GVInput");
    let mut fallback: i32 = 0;
    let mut i: usize = 0;
    while i < ids.len()
        invariant
            i <= ids@.len() <= 10,
            vid@ == "VID_363C"@,
            virt@ == "GVInput"@,
            forall|j: int| 0 <= j < i ==> !own_keyboard(#[trigger] ids@[j]),
            fallback == 0 ==> forall|j: int| 0 <= j < i ==> !real_keyboard(#[trigger] ids@[j]),
            fallback != 0 ==> first_at(
                ids@,
                |id: Option<Vec<char>>| real_keyboard(id),
                fallback - 1,
            ),
        decreases ids@.len() - i,
    {
        match &ids[i] {
            Some(id) => {
                if text::contains(id.as_slice(), vid.as_slice()) {
                    return Some(i as i32 + 1);
                }
                if fallback == 0 && !text::contains(id.as_slice(), virt.as_slice()) {
                    fallback = i as i32 + 1;
                }
            },
            None => {},
        }
        i += 1;
    }
    if fallback != 0 {
        Some(fallback)
    } else {
        None
    }
}

/// The keys that are held after these strokes, where `held` were held before.
pub open spec fn after(held: Set<(u8, bool)>, strokes: Seq<Stroke>) -> Set<(u8, bool)>
    decreases strokes.len(),
{
    if strokes.len() == 0 {
        held
    } else {
        let before = after(held, strokes.drop_last());
        let s = strokes.last();
        if s.keyup {
            before.remove((s.scancode, s.extended))
        } else {
            before.insert((s.scancode, s.extended))
        }
    }
}

/// Strokes act one after the other.
pub proof fn lemma_after_concat(held: Set<(u8, bool)>, a: Seq<Stroke>, b: Seq<Stroke>)
    ensures
        after(held, a + b) == after(after(held, a), b),
    decreases b.len(),
{
    if b.len() == 0 {
        assert(a + b == a);
    } else {
        assert((a + b).drop_last() == a + b.drop_last());
        lemma_after_concat(held, a, b.drop_last());
    }
}

/// Pressing a combination leaves exactly its keys held, besides those held before.
pub proof fn law_press_holds_all(held: Set<(u8, bool)>, scans: Seq<(u8, bool)>)
    ensures
        after(held, down_strokes(scans)) == held.union(scans.to_set()),
    decreases scans.len(),
{
    if scans.len() == 0 {
        assert(down_strokes(scans).len() == 0);
        assert(held.union(scans.to_set()) =~= held);
    } else {
        let front = scans.drop_last();
        law_press_holds_all(held, front);
        assert(down_strokes(scans).drop_last() == down_strokes(front));
        assert forall|k: (u8, bool)|
            held.union(scans.to_set()).contains(k) == held.union(front.to_set()).insert(
                scans.last(),
            ).contains(k) by {
            if scans.contains(k) && k != scans.last() {
                let i = choose|i: int| 0 <= i < scans.len() && scans[i] == k;
                assert(front[i] == k);
            }
            if front.contains(k) {
                let i = choose|i: int| 0 <= i < front.len() && front[i] == k;
                assert(scans[i] == k);
            }
            assert(scans.contains(scans.last()));
        }
        assert(held.union(scans.to_set()) =~= held.union(front.to_set()).insert(scans.last()));
        let last = scans.last();
        assert(down_strokes(scans).last() == Stroke {
            scancode: last.0,
            extended: last.1,
            keyup: false,
        });
        assert((last.0, last.1) == last);
    }
}

/// Releasing a combination leaves none of its keys held.
pub proof fn law_release_frees_all(held: Set<(u8, bool)>, scans: Seq<(u8, bool)>)
    ensures
        after(held, up_strokes(scans)) == held.difference(scans.to_set()),
    decreases scans.len(),
{
    if scans.len() == 0 {
        assert(up_strokes(scans).len() == 0);
        assert(held.difference(scans.to_set()) =~= held);
    } else {
        let rest = scans.drop_first();
        law_release_frees_all(held, rest);
        assert(up_strokes(scans).drop_last() =~= up_strokes(rest));
        let first = scans.first();
        assert((first.0, first.1) == first);
        assert forall|k: (u8, bool)|
            held.difference(scans.to_set()).contains(k) == held.difference(rest.to_set()).remove(
                first,
            ).contains(k) by {
            if scans.contains(k) && k != first {
                let i = choose|i: int| 0 <= i < scans.len() && scans[i] == k;
                assert(rest[i - 1] == k);
            }
            if rest.contains(k) {
                let i = choose|i: int| 0 <= i < rest.len() && rest[i] == k;
                assert(scans[i + 1] == k);
            }
            assert(scans.contains(first));
        }
        assert(held.difference(scans.to_set()) =~= held.difference(rest.to_set()).remove(first));
    }
}

/// A press followed by a release, or a tap, leaves held what was held before, as far as the
/// combination's own keys were not among it.
pub proof fn law_press_release_balanced(held: Set<(u8, bool)>, scans: Seq<(u8, bool)>)
    requires
        held.disjoint(scans.to_set()),
    ensures
        after(held, down_strokes(scans) + up_strokes(scans)) == held,
{
    lemma_after_concat(held, down_strokes(scans), up_strokes(scans));
    law_press_holds_all(held, scans);
    law_release_frees_all(held.union(scans.to_set()), scans);
    assert(held.union(scans.to_set()).difference(scans.to_set()) =~= held);
}

/// A second press or a second release in a row injects nothing.
pub proof fn law_press_release_idempotent(h: HotKey)
    ensures
        (HotKey { down: true, ..h }).press_strokes() == Seq::<Stroke>::empty(),
        (HotKey { down: false, ..h }).release_strokes() == Seq::<Stroke>::empty(),
{
}

/// Neither Enter nor Ctrl+Enter leaves a key held that was not held before.
pub proof fn law_enter_leaves_nothing(held: Set<(u8, bool)>)
    ensures
        after(held, enter_strokes()) == held.remove((0x1C, false)),
        after(held, ctrl_enter_strokes()) == held.remove((0x1C, false)).remove((0x1D, false)),
{
    reveal_with_fuel(after, 5);
    let e = enter_strokes();
    assert(e.drop_last() =~= seq![e[0]]);
    assert(seq![e[0]].drop_last() =~= Seq::<Stroke>::empty());
    assert(after(held, e) =~= held.remove((0x1C, false)));
    let c = ctrl_enter_strokes();
    assert(c.drop_last() =~= seq![c[0], c[1], c[2]]);
    assert(seq![c[0], c[1], c[2]].drop_last() =~= seq![c[0], c[1]]);
    assert(seq![c[0], c[1]].drop_last() =~= seq![c[0]]);
    assert(seq![c[0]].drop_last() =~= Seq::<Stroke>::empty());
    assert(after(held, c) =~= held.remove((0x1C, false)).remove((0x1D, false)));
}

/// A single name, white space round it aside, is the combination of that one key.
pub proof fn law_single_name(name: Seq<char>)
    requires
        !name.contains('+'),
    ensures
        scans_of(name) == (match scan_of(text::trimmed(name)) {
            Some(k) => Some(seq![k]),
            None => None,
        }),
{
    text::lemma_split_one(name, '+');
    if scan_of(text::trimmed(name)) is Some {
        assert(scans_of(name)->0 =~= seq![scan_of(text::trimmed(name))->0]);
    } else {
        assert(scan_of(text::trimmed(text::split_on(name, '+')[0])) is None);
    }
}

/// The keys of a combination are those of its first part, then those of its second; it has none
/// where either part has none.
pub proof fn law_combination(a: Seq<char>, b: Seq<char>)
    ensures
        scans_of(a.push('+') + b) == (match (scans_of(a), scans_of(b)) {
            (Some(k), Some(l)) => Some(k + l),
            _ => None,
        }),
{
    text::lemma_split_join(a, b, '+');
    let left = text::split_on(a, '+');
    let right = text::split_on(b, '+');
    let parts = text::split_on(a.push('+') + b, '+');
    assert(parts == left + right);
    if all_known(a) && all_known(b) {
        assert forall|i: int| 0 <= i < parts.len() implies scan_of(
            text::trimmed(#[trigger] parts[i]),
        ) is Some by {
            if i < left.len() {
                assert(parts[i] == left[i]);
            } else {
                assert(parts[i] == right[i - left.len()]);
            }
        }
        assert(scans_of(a.push('+') + b)->0 =~= scans_of(a)->0 + scans_of(b)->0);
    } else if !all_known(a) {
        let i = choose|i: int|
            0 <= i < left.len() && !(scan_of(text::trimmed(#[trigger] left[i])) is Some);
        assert(parts[i] == left[i]);
    } else {
        let i = choose|i: int|
            0 <= i < right.len() && !(scan_of(text::trimmed(#[trigger] right[i])) is Some);
        assert(parts[left.len() + i] == right[i]);
    }
}

/// Every name that can be chosen names keys.
pub proof fn law_listed_names_known(name: Seq<char>)
    requires
        listed(name),
    ensures
        scans_of(name) is Some,
{
    reveal_strlit("L_alt");
    reveal_strlit("R_alt");
    reveal_strlit("R_ctrl");
    reveal_strlit("R_shift");
    reveal_strlit("f9");
    reveal_strlit("f10");
    reveal_strlit("space");
    reveal_strlit("grave");
    reveal_strlit("capslock");
    reveal_strlit("R_alt+space");
    reveal_strlit("R_alt+R_shift");
    reveal_strlit("R_alt+R_ctrl");
    let i = choose|i: int| 0 <= i < 12 && (#[trigger] HOTKEY_NAMES@[i])@ == name;
    text::lemma_trimmed_same("R_alt"@);
    text::lemma_trimmed_same("space"@);
    text::lemma_trimmed_same("R_shift"@);
    text::lemma_trimmed_same("R_ctrl"@);
    assert("R_alt+space"@ =~= "R_alt"@.push('+') + "space"@);
    assert("R_alt+R_shift"@ =~= "R_alt"@.push('+') + "R_shift"@);
    assert("R_alt+R_ctrl"@ =~= "R_alt"@.push('+') + "R_ctrl"@);
    law_single_name("R_alt"@);
    law_single_name("space"@);
    law_single_name("R_shift"@);
    law_single_name("R_ctrl"@);
    if i < 9 {
        law_single_name(name);
        text::lemma_trimmed_same(name);
    } else if i == 9 {
        law_combination("R_alt"@, "space"@);
    } else if i == 10 {
        law_combination("R_alt"@, "R_shift"@);
    } else {
        law_combination("R_alt"@, "R_ctrl"@);
    }
}

/// The key that each name stands for, by its set-1 scan code and whether it is an extended key.
/// No other single name stands for a key.
pub proof fn law_scan_codes(name: Seq<char>)
    ensures
        scan_of("L_alt"@) == Some((0x38u8, false)),
        scan_of("R_alt"@) == Some((0x38u8, true)),
        scan_of("R_ctrl"@) == Some((0x1Du8, true)),
        scan_of("R_shift"@) == Some((0x36u8, false)),
        scan_of("f9"@) == Some((0x43u8, false)),
        scan_of("f10"@) == Some((0x44u8, false)),
        scan_of("space"@) == Some((0x39u8, false)),
        scan_of("grave"@) == Some((0x29u8, false)),
        scan_of("capslock"@) == Some((0x3Au8, false)),
        scan_of("left_alt"@) == scan_of("L_alt"@),
        scan_of("right_alt"@) == scan_of("R_alt"@),
        scan_of("right_ctrl"@) == scan_of("R_ctrl"@),
        scan_of("right_shift"@) == scan_of("R_shift"@),
        scan_of(name) is Some ==> name == "L_alt"@ || name == "R_alt"@ || name == "R_ctrl"@ || name
            == "R_shift"@ || name == "f9"@ || name == "f10"@ || name == "space"@ || name
            == "grave"@ || name == "capslock"@ || name == "left_alt"@ || name == "right_alt"@
            || name == "right_ctrl"@ || name == "right_shift"@,
{
    reveal_strlit("L_alt");
    reveal_strlit("R_alt");
    reveal_strlit("R_ctrl");
    reveal_strlit("R_shift");
    reveal_strlit("f9");
    reveal_strlit("f10");
    reveal_strlit("space");
    reveal_strlit("grave");
    reveal_strlit("capslock");
    reveal_strlit("left_alt");
    reveal_strlit("right_alt");
    reveal_strlit("right_ctrl");
    reveal_strlit("right_shift");
    assert("L_alt"@[0] == 'L' && "R_alt"@[0] == 'R' && "R_ctrl"@[0] == 'R' && "R_shift"@[0] == 'R');
    assert("R_alt"@.len() == 5 && "R_ctrl"@.len() == 6 && "R_shift"@.len() == 7);
    assert("f9"@.len() == 2 && "f10"@.len() == 3);
    assert("space"@[0] == 's' && "grave"@[0] == 'g' && "capslock"@[0] == 'c' && "f9"@[0] == 'f'
        && "f10"@[0] == 'f');
    assert("left_alt"@[0] == 'l' && "right_alt"@[0] == 'r' && "right_ctrl"@[0] == 'r'
        && "right_shift"@[0] == 'r');
    assert("right_alt"@.len() == 9 && "right_ctrl"@.len() == 10 && "right_shift"@.len() == 11);
}

/// The names that can be chosen: nine keys and three combinations with the right Alt key.
pub proof fn law_listed_names(name: Seq<char>)
    ensures
        listed(name) <==> name == "L_alt"@ || name == "R_alt"@ || name == "R_ctrl"@ || name
            == "R_shift"@ || name == "f9"@ || name == "f10"@ || name == "space"@ || name
            == "grave"@ || name == "capslock"@ || name == "R_alt+space"@ || name
            == "R_alt+R_shift"@ || name == "R_alt+R_ctrl"@,
{
    assert(HOTKEY_NAMES@[0]@ == "L_alt"@);
    assert(HOTKEY_NAMES@[1]@ == "R_alt"@);
    assert(HOTKEY_NAMES@[2]@ == "R_ctrl"@);
    assert(HOTKEY_NAMES@[3]@ == "R_shift"@);
    assert(HOTKEY_NAMES@[4]@ == "f9"@);
    assert(HOTKEY_NAMES@[5]@ == "f10"@);
    assert(HOTKEY_NAMES@[6]@ == "space"@);
    assert(HOTKEY_NAMES@[7]@ == "grave"@);
    assert(HOTKEY_NAMES@[8]@ == "capslock"@);
    assert(HOTKEY_NAMES@[9]@ == "R_alt+space"@);
    assert(HOTKEY_NAMES@[10]@ == "R_alt+R_shift"@);
    assert(HOTKEY_NAMES@[11]@ == "R_alt+R_ctrl"@);
}

/// The strokes of a hotkey, key by key: a press that finds it up sends each key down in the order
/// written, a release that finds it down sends each up in reverse, and nothing else is sent.
pub proof fn law_stroke_order(h: HotKey, i: int)
    ensures
        !h.down ==> h.press_strokes().len() == h.scans@.len(),
        h.down ==> h.press_strokes().len() == 0,
        h.down ==> h.release_strokes().len() == h.scans@.len(),
        !h.down ==> h.release_strokes().len() == 0,
        !h.down && 0 <= i < h.scans@.len() ==> ({
            let s = h.press_strokes()[i];
            !s.keyup && (s.scancode, s.extended) == h.scans@[i]
        }),
        h.down && 0 <= i < h.scans@.len() ==> ({
            let s = h.release_strokes()[h.scans@.len() - 1 - i];
            s.keyup && (s.scancode, s.extended) == h.scans@[i]
        }),
{
}

/// The strokes of a tap, key by key: each key down in the order written, each up in reverse.
pub proof fn law_tap_order(scans: Seq<(u8, bool)>, i: int)
    requires
        0 <= i < scans.len(),
    ensures
        down_strokes(scans).len() == scans.len(),
        up_strokes(scans).len() == scans.len(),
        !down_strokes(scans)[i].keyup,
        (down_strokes(scans)[i].scancode, down_strokes(scans)[i].extended) == scans[i],
        up_strokes(scans)[i].keyup,
        (up_strokes(scans)[i].scancode, up_strokes(scans)[i].extended) == scans[scans.len() - 1
            - i],
{
}

/// The Interception driver is used exactly where it is asked for by name.
pub proof fn law_backend(driver: Seq<char>)
    ensures
        backend_of(driver) == Backend::Interception <==> driver == "interception"@,
{
}

/// Enter is the plain key 0x1C, down and up; Ctrl+Enter has the left Ctrl key 0x1D round it.
pub proof fn law_enter_keys()
    ensures
        enter_strokes().len() == 2,
        forall|i: int|
            0 <= i < 2 ==> (#[trigger] enter_strokes()[i]).scancode == 0x1C
                && !enter_strokes()[i].extended && enter_strokes()[i].keyup == (i == 1),
        ctrl_enter_strokes().len() == 4,
        ctrl_enter_strokes().subrange(1, 3) == enter_strokes(),
        ctrl_enter_strokes()[0] == (Stroke { scancode: 0x1D, extended: false, keyup: false }),
        ctrl_enter_strokes()[3] == (Stroke { scancode: 0x1D, extended: false, keyup: true }),
{
    assert(ctrl_enter_strokes().subrange(1, 3) =~= enter_strokes());
}

/// The characters of a hardware id: each unit is the code of its character, and half a surrogate
/// pair is no character.
pub proof fn law_unit_char(u: u16)
    ensures
        !(0xD800 <= u && u <= 0xDFFF) ==> unit_char(u) as u32 == u,
        0xD800 <= u && u <= 0xDFFF ==> unit_char(u) as u32 == 0,
{
}

/// Which keyboards are meant: that of the mouse has `VID_363C` in its hardware id, a virtual one
/// has `GVInput` in it.
pub proof fn law_keyboards(id: Vec<char>, before: Seq<char>, behind: Seq<char>)
    ensures
        id@ == before + "VID_363C"@ + behind ==> own_keyboard(Some(id)),
        id@ == before + "GVInput"@ + behind ==> !real_keyboard(Some(id)),
        own_keyboard(Some(id)) ==> text::occurs(id@, "VID_363C"@),
        !text::occurs(id@, "GVInput"@) ==> real_keyboard(Some(id)),
        !own_keyboard(None) && !real_keyboard(None),
{
    text::law_occurs_between(before, "VID_363C"@, behind);
    text::law_occurs_between(before, "GVInput"@, behind);
}

/// Different keys of the list are different to the system.
pub proof fn law_keys_differ(i: int, j: int)
    requires
        0 <= i < 9,
        0 <= j < 9,
        i != j,
    ensures
        scan_of(HOTKEY_NAMES@[i]@) is Some,
        scan_of(HOTKEY_NAMES@[i]@) != scan_of(HOTKEY_NAMES@[j]@),
{
    law_scan_codes(HOTKEY_NAMES@[i]@);
    assert(HOTKEY_NAMES@[0]@ == "L_alt"@ && HOTKEY_NAMES@[1]@ == "R_alt"@);
    assert(HOTKEY_NAMES@[2]@ == "R_ctrl"@ && HOTKEY_NAMES@[3]@ == "R_shift"@);
    assert(HOTKEY_NAMES@[4]@ == "f9"@ && HOTKEY_NAMES@[5]@ == "f10"@);
    assert(HOTKEY_NAMES@[6]@ == "space"@ && HOTKEY_NAMES@[7]@ == "grave"@);
    assert(HOTKEY_NAMES@[8]@ == "capslock"@);
}

/// White space round the name of a key does not matter.
pub proof fn law_blanks_ignored(a: Seq<char>, name: Seq<char>, b: Seq<char>)
    requires
        text::all_space(a),
        text::all_space(b),
        name.len() > 0,
        !name.contains('+'),
        !text::is_space(name[0]),
        !text::is_space(name.last()),
    ensures
        scan_of(name) is Some ==> scans_of(a + name + b) == Some(seq![scan_of(name)->0]),
        scan_of(name) is None ==> scans_of(a + name + b) is None,
{
    let s = a + name + b;
    text::law_white_space('+');
    text::law_trim_undoes_blanks(a, name, b);
    assert(!s.contains('+')) by {
        if s.contains('+') {
            let i = choose|i: int| 0 <= i < s.len() && s[i] == '+';
            if i < a.len() {
                assert(text::is_space(a[i]));
            } else if i < a.len() + name.len() {
                assert(name[i - a.len()] == '+');
            } else {
                assert(text::is_space(b[i - a.len() - name.len()]));
            }
        }
    }
    text::lemma_split_one(s, '+');
    assert(text::split_on(s, '+')[0] == s);
    if scan_of(name) is Some {
        assert(scans_of(s)->0 =~= seq![scan_of(name)->0]);
    }
}

/// The first keyboard of a kind is of that kind, and none before it is.
pub proof fn law_first_keyboard(
    ids: Seq<Option<Vec<char>>>,
    p: spec_fn(Option<Vec<char>>) -> bool,
    i: int,
    j: int,
)
    requires
        first_at(ids, p, i),
        0 <= j < ids.len(),
        p(ids[j]),
    ensures
        i <= j,
        p(ids[i]),
        0 <= i < ids.len(),
{
}

/// A name that is not known is told, with the names that are.
pub proof fn law_unknown_name(name: Seq<char>)
    ensures
        ("未知热键名: "@ + name).is_prefix_of(unknown_name(name)),
        unknown_name(name) == "未知热键名: "@ + name
            + " (可选: [\"L_alt\", \"R_alt\", \"R_ctrl\", \"R_shift\", \"f9\", \"f10\", \"space\", \"grave\", \"capslock\", \"R_alt+space\", \"R_alt+R_shift\", \"R_alt+R_ctrl\"])"@,
{
}

} // verus!
