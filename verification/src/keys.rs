//! The hotkey resolver: parses the configured modifier strings and key names,
//! resolves keysyms to keycodes through the server's keyboard mapping, and
//! answers key presses with the configured action. Keysym arithmetic itself
//! comes from the xkeysym crate behind trusted wrappers.

use vstd::prelude::*;

use crate::config::HotkeyConfig;

verus! {

/// What a key press should do.
#[derive(Clone, Debug, PartialEq, Eq)]
pub enum HotkeyAction {
    Spawn(String),
    ExitFocusedWindow,
    SwitchTag(usize),
    MoveWindow(usize),
    ChangeRatio(i32),
    NextFocus(i16),
    NextTag(i16),
    SwapMaster,
}

/// An owned copy of `a`, equal to it as a value.
pub fn clone_action(a: &HotkeyAction) -> (r: HotkeyAction)
    ensures
        r == *a,
{
    match a {
        HotkeyAction::Spawn(s) => HotkeyAction::Spawn(s.clone()),
        HotkeyAction::ExitFocusedWindow => HotkeyAction::ExitFocusedWindow,
        HotkeyAction::SwitchTag(n) => HotkeyAction::SwitchTag(*n),
        HotkeyAction::MoveWindow(n) => HotkeyAction::MoveWindow(*n),
        HotkeyAction::ChangeRatio(d) => HotkeyAction::ChangeRatio(*d),
        HotkeyAction::NextFocus(d) => HotkeyAction::NextFocus(*d),
        HotkeyAction::NextTag(d) => HotkeyAction::NextTag(*d),
        HotkeyAction::SwapMaster => HotkeyAction::SwapMaster,
    }
}

/// One resolved hotkey: the keysym it was configured with, the modifier mask
/// to match, the keycode the server maps the keysym to, and the action. The
/// `modifier` field carries the same bits as `mask`, in the form the grab
/// request wants.
pub struct Hotkey {
    pub _sym: u32,
    pub mask: u16,
    pub action: HotkeyAction,
    pub code: u32,
    pub modifier: u16,
}

/// The X core modifier bits the configuration may name.
pub const MASK_SHIFT: u16 = 1;

pub const MASK_CONTROL: u16 = 4;

pub const MASK_MOD4: u16 = 64;

/// Keysyms of the recognized key-name aliases.
pub const KEYSYM_RETURN: u32 = 0xff0d;

pub const KEYSYM_LEFT: u32 = 0xff51;

pub const KEYSYM_RIGHT: u32 = 0xff53;

pub const KEYSYM_BRIGHTNESS_UP: u32 = 0x1008ff02;

pub const KEYSYM_BRIGHTNESS_DOWN: u32 = 0x1008ff03;

pub const KEYSYM_AUDIO_LOWER: u32 = 0x1008ff11;

pub const KEYSYM_AUDIO_MUTE: u32 = 0x1008ff12;

pub const KEYSYM_AUDIO_RAISE: u32 = 0x1008ff13;

/// The keysym that stands for a character key, as the xkeysym crate computes
/// it from the character alone.
pub uninterp spec fn char_keysym(c: char) -> u32;

/// Relies on xkeysym's `Keysym::from_char`: the result depends on the
/// character alone, and printable Latin-1 characters map to themselves.
#[verifier::external_body]
fn keysym_of_char(c: char) -> (r: u32)
    ensures
        r == char_keysym(c),
        (0x20 <= c as u32 <= 0x7e || 0xa0 <= c as u32 <= 0xff) ==> r == c as u32,
{
    xkeysym::Keysym::from_char(c).raw()
}

/// The keysym the server's keyboard mapping assigns to `code` in column 0,
/// as the xkeysym crate reads it out of the flattened mapping table.
pub uninterp spec fn mapped_keysym(code: u32, min: u32, per: u8, syms: Seq<u32>) -> Option<u32>;

/// Relies on xkeysym's `keysym`: a pure lookup in the mapping table, a
/// function of its arguments alone. The bound keeps the table slice of
/// `code` inside the flattened list, which the callee indexes unchecked.
#[verifier::external_body]
fn keysym_for_code(code: u8, min: u8, per: u8, syms: &Vec<u32>) -> (r: Option<u32>)
    requires
        min <= code,
        (code as int - min as int + 1) * (per as int) <= syms@.len(),
    ensures
        r == mapped_keysym(code as u32, min as u32, per, syms@),
{
    match xkeysym::keysym(
        xkeysym::KeyCode::new(code as u32),
        0,
        xkeysym::KeyCode::new(min as u32),
        per,
        syms.as_slice(),
    ) {
        Some(s) => Some(s.raw()),
        None => None,
    }
}

/// The modifier bit a single token names; unknown tokens contribute nothing.
pub open spec fn modifier_bit(t: Seq<char>) -> u16 {
    if t == "CONTROL"@ {
        MASK_CONTROL
    } else if t == "SHIFT"@ {
        MASK_SHIFT
    } else if t == "MOD"@ {
        MASK_MOD4
    } else {
        0
    }
}

/// Folds the modifier string left to right: `cur` is the token being read,
/// `acc` the bits gathered so far; every `|` closes a token.
pub open spec fn mask_fold(s: Seq<char>, cur: Seq<char>, acc: u16) -> u16
    decreases s.len(),
{
    if s.len() == 0 {
        acc | modifier_bit(cur)
    } else if s[0] == '|' {
        mask_fold(s.skip(1), Seq::empty(), acc | modifier_bit(cur))
    } else {
        mask_fold(s.skip(1), cur.push(s[0]), acc)
    }
}

/// The modifier mask of a whole `|`-separated modifier string.
pub open spec fn spec_mask(s: Seq<char>) -> u16 {
    mask_fold(s, Seq::empty(), 0u16)
}

/// The keysym a configured key name stands for: a recognized alias, or the
/// first character read as a keysym; an empty name resolves to nothing.
pub open spec fn spec_key_sym(k: Seq<char>) -> Option<u32> {
    if k == "XK_Return"@ {
        Some(KEYSYM_RETURN)
    } else if k == "XF86_MonBrightnessUp"@ {
        Some(KEYSYM_BRIGHTNESS_UP)
    } else if k == "XF86_MonBrightnessDown"@ {
        Some(KEYSYM_BRIGHTNESS_DOWN)
    } else if k == "XF86_AudioRaiseVolume"@ {
        Some(KEYSYM_AUDIO_RAISE)
    } else if k == "XF86_AudioLowerVolume"@ {
        Some(KEYSYM_AUDIO_LOWER)
    } else if k == "XF86_AudioMute"@ {
        Some(KEYSYM_AUDIO_MUTE)
    } else if k == "XK_Left"@ {
        Some(KEYSYM_LEFT)
    } else if k == "XK_Right"@ {
        Some(KEYSYM_RIGHT)
    } else if k.len() == 0 {
        None
    } else {
        Some(char_keysym(k[0]))
    }
}

/// The `(keysym, keycode)` pairs of codes `c..=max` whose column-0 keysym the
/// mapping defines, in keycode order.
pub open spec fn pairs_from(c: int, max: int, min: int, per: u8, syms: Seq<u32>) -> Seq<(u32, u32)>
    decreases max + 1 - c,
{
    if c > max {
        Seq::empty()
    } else {
        (match mapped_keysym(c as u32, min as u32, per, syms) {
            Some(s) => seq![(s, c as u32)],
            None => Seq::empty(),
        }) + pairs_from(c + 1, max, min, per, syms)
    }
}

/// The keycode of the last pair carrying `sym`, if any: when a keysym sits
/// on several keycodes, the highest keycode wins, as a map filled in
/// keycode order resolves it.
pub open spec fn last_code(pairs: Seq<(u32, u32)>, sym: u32) -> Option<u32>
    decreases pairs.len(),
{
    if pairs.len() == 0 {
        None
    } else if pairs.last().0 == sym {
        Some(pairs.last().1)
    } else {
        last_code(pairs.drop_last(), sym)
    }
}

/// The hotkey a single configuration entry resolves to: its key name must
/// name a keysym and the mapping must give that keysym a keycode, else the
/// entry is dropped.
pub open spec fn resolve_hotkey(pairs: Seq<(u32, u32)>, hc: HotkeyConfig) -> Option<Hotkey> {
    match spec_key_sym(hc.key@) {
        None => None,
        Some(sym) => match last_code(pairs, sym) {
            None => None,
            Some(code) => Some(
                Hotkey {
                    _sym: sym,
                    mask: spec_mask(hc.modifiers@),
                    action: hc.action,
                    code,
                    modifier: spec_mask(hc.modifiers@),
                },
            ),
        },
    }
}

/// The resolved hotkeys of the first `n` configuration entries, in order.
pub open spec fn build_hotkeys_prefix(
    pairs: Seq<(u32, u32)>,
    cfgs: Seq<HotkeyConfig>,
    n: int,
) -> Seq<Hotkey>
    decreases n,
{
    if n <= 0 {
        Seq::empty()
    } else {
        build_hotkeys_prefix(pairs, cfgs, n - 1) + (match resolve_hotkey(pairs, cfgs[n - 1]) {
            Some(h) => seq![h],
            None => Seq::empty(),
        })
    }
}

/// The hotkey table a configuration builds over a keyboard mapping.
pub open spec fn build_hotkeys(pairs: Seq<(u32, u32)>, cfgs: Seq<HotkeyConfig>) -> Seq<Hotkey> {
    build_hotkeys_prefix(pairs, cfgs, cfgs.len() as int)
}

/// The action of the first hotkey matching the pressed `(mask, code)`, if
/// any: the resolver's lookup, first match wins.
pub open spec fn lookup_hotkey(hks: Seq<Hotkey>, mask: u16, code: u32) -> Option<HotkeyAction>
    decreases hks.len(),
{
    if hks.len() == 0 {
        None
    } else if hks[0].mask == mask && hks[0].code == code {
        Some(hks[0].action)
    } else {
        lookup_hotkey(hks.skip(1), mask, code)
    }
}

/// `tok` spells exactly the characters of `s`.
fn vec_eq_str(tok: &Vec<char>, s: &str) -> (r: bool)
    ensures
        r == (tok@ == s@),
{
    let n = s.unicode_len();
    if tok.len() != n {
        proof {
            assert(tok@.len() != s@.len());
        }
        return false;
    }
    let mut i: usize = 0;
    while i < n
        invariant
            i <= n,
            n == s@.len(),
            tok@.len() == n,
            forall|j: int| 0 <= j < i ==> tok@[j] == s@[j],
        decreases n - i,
    {
        if tok[i] != s.get_char(i) {
            return false;
        }
        i = i + 1;
    }
    proof {
        assert(tok@ =~= s@);
    }
    true
}

/// The modifier bit of one token, by comparison against the known names.
fn token_bit(tok: &Vec<char>) -> (r: u16)
    ensures
        r == modifier_bit(tok@),
{
    if vec_eq_str(tok, "CONTROL") {
        MASK_CONTROL
    } else if vec_eq_str(tok, "SHIFT") {
        MASK_SHIFT
    } else if vec_eq_str(tok, "MOD") {
        MASK_MOD4
    } else {
        0
    }
}

/// Parses a `|`-separated modifier string into its mask; unknown tokens are
/// ignored.
pub fn parse_modifiers(s: &str) -> (r: u16)
    ensures
        r == spec_mask(s@),
{
    let n = s.unicode_len();
    let mut i: usize = 0;
    let mut cur: Vec<char> = Vec::new();
    let mut acc: u16 = 0;
    proof {
        assert(s@.skip(0) =~= s@);
    }
    while i < n
        invariant
            i <= n,
            n == s@.len(),
            spec_mask(s@) == mask_fold(s@.skip(i as int), cur@, acc),
        decreases n - i,
    {
        let c = s.get_char(i);
        proof {
            assert(s@.skip(i as int)[0] == s@[i as int]);
            assert(s@.skip(i as int).skip(1) =~= s@.skip(i as int + 1));
        }
        if c == '|' {
            let b = token_bit(&cur);
            acc = acc | b;
            cur = Vec::new();
        } else {
            cur.push(c);
        }
        i = i + 1;
    }
    proof {
        assert(s@.skip(i as int) =~= Seq::<char>::empty());
        assert(s@.skip(i as int).len() == 0);
    }
    let b = token_bit(&cur);
    acc | b
}

/// `a` and `b` spell the same characters.
fn str_eq_str(a: &str, b: &str) -> (r: bool)
    ensures
        r == (a@ == b@),
{
    let n = a.unicode_len();
    if b.unicode_len() != n {
        proof {
            assert(a@.len() != b@.len());
        }
        return false;
    }
    let mut i: usize = 0;
    while i < n
        invariant
            i <= n,
            n == a@.len(),
            b@.len() == n,
            forall|j: int| 0 <= j < i ==> a@[j] == b@[j],
        decreases n - i,
    {
        if a.get_char(i) != b.get_char(i) {
            return false;
        }
        i = i + 1;
    }
    proof {
        assert(a@ =~= b@);
    }
    true
}

/// Resolves a configured key name to its keysym: a recognized alias, or the
/// first character as a keysym; an empty name resolves to nothing.
pub fn key_name_to_sym(k: &str) -> (r: Option<u32>)
    ensures
        r == spec_key_sym(k@),
{
    if str_eq_str(k, "XK_Return") {
        Some(KEYSYM_RETURN)
    } else if str_eq_str(k, "XF86_MonBrightnessUp") {
        Some(KEYSYM_BRIGHTNESS_UP)
    } else if str_eq_str(k, "XF86_MonBrightnessDown") {
        Some(KEYSYM_BRIGHTNESS_DOWN)
    } else if str_eq_str(k, "XF86_AudioRaiseVolume") {
        Some(KEYSYM_AUDIO_RAISE)
    } else if str_eq_str(k, "XF86_AudioLowerVolume") {
        Some(KEYSYM_AUDIO_LOWER)
    } else if str_eq_str(k, "XF86_AudioMute") {
        Some(KEYSYM_AUDIO_MUTE)
    } else if str_eq_str(k, "XK_Left") {
        Some(KEYSYM_LEFT)
    } else if str_eq_str(k, "XK_Right") {
        Some(KEYSYM_RIGHT)
    } else if k.unicode_len() == 0 {
        None
    } else {
        Some(keysym_of_char(k.get_char(0)))
    }
}

/// The resolver: the keysym-to-keycode pairs of the current mapping and the
/// resolved hotkey table.
pub struct KeyHandler {
    pub _sym_code: Vec<(u32, u32)>,
    pub hotkeys: Vec<Hotkey>,
}

/// The keycode of the last pair carrying `sym`, if any: the list is scanned
/// from its high end.
fn find_code(pairs: &Vec<(u32, u32)>, sym: u32) -> (r: Option<u32>)
    ensures
        r == last_code(pairs@, sym),
{
    let mut i: usize = pairs.len();
    proof {
        assert(pairs@.take(pairs@.len() as int) =~= pairs@);
    }
    while i > 0
        invariant
            i <= pairs@.len(),
            last_code(pairs@, sym) == last_code(pairs@.take(i as int), sym),
        decreases i,
    {
        proof {
            assert(pairs@.take(i as int).last() == pairs@[i as int - 1]);
            assert(pairs@.take(i as int).drop_last() =~= pairs@.take(i as int - 1));
        }
        if pairs[i - 1].0 == sym {
            return Some(pairs[i - 1].1);
        }
        i = i - 1;
    }
    proof {
        assert(pairs@.take(0) =~= Seq::<(u32, u32)>::empty());
    }
    None
}

impl KeyHandler {
    /// Builds the resolver from the server's keyboard mapping (minimum
    /// keycode, keysyms per keycode, and the flattened keysym table of codes
    /// `min..=max`) and the configured hotkey list. Entries whose keysym has
    /// no keycode are dropped.
    pub fn new(
        min: u8,
        max: u8,
        keysyms_per_keycode: u8,
        keysyms: Vec<u32>,
        hotkeys: Vec<HotkeyConfig>,
    ) -> (r: KeyHandler)
        requires
            min <= max,
            (max as int - min as int + 1) * (keysyms_per_keycode as int) <= keysyms@.len(),
        ensures
            r._sym_code@ == pairs_from(
                min as int,
                max as int,
                min as int,
                keysyms_per_keycode,
                keysyms@,
            ),
            r.hotkeys@ == build_hotkeys(
                pairs_from(min as int, max as int, min as int, keysyms_per_keycode, keysyms@),
                hotkeys@,
            ),
    {
        let ghost all_pairs = pairs_from(
            min as int,
            max as int,
            min as int,
            keysyms_per_keycode,
            keysyms@,
        );
        let mut pairs: Vec<(u32, u32)> = Vec::new();
        let mut c: u16 = min as u16;
        while c <= max as u16
            invariant
                min as u16 <= c <= max as u16 + 1,
                (max as int - min as int + 1) * (keysyms_per_keycode as int) <= keysyms@.len(),
                all_pairs == pairs_from(
                    min as int,
                    max as int,
                    min as int,
                    keysyms_per_keycode,
                    keysyms@,
                ),
                all_pairs == pairs@ + pairs_from(
                    c as int,
                    max as int,
                    min as int,
                    keysyms_per_keycode,
                    keysyms@,
                ),
            decreases max as int + 1 - c as int,
        {
            proof {
                assert((c as int - min as int + 1) * (keysyms_per_keycode as int) <= (max as int
                    - min as int + 1) * (keysyms_per_keycode as int)) by (nonlinear_arith)
                    requires
                        c as int <= max as int,
                        keysyms_per_keycode as int >= 0,
                ;
            }
            match keysym_for_code(c as u8, min, keysyms_per_keycode, &keysyms) {
                Some(s) => {
                    pairs.push((s, c as u32));
                },
                None => {},
            }
            proof {
                assert(all_pairs =~= pairs@ + pairs_from(
                    c as int + 1,
                    max as int,
                    min as int,
                    keysyms_per_keycode,
                    keysyms@,
                ));
            }
            c = c + 1;
        }
        proof {
            assert(pairs_from(
                c as int,
                max as int,
                min as int,
                keysyms_per_keycode,
                keysyms@,
            ) =~= Seq::<(u32, u32)>::empty());
            assert(all_pairs =~= pairs@);
        }
        let mut table: Vec<Hotkey> = Vec::new();
        let m = hotkeys.len();
        let mut k: usize = 0;
        while k < m
            invariant
                k <= m,
                m == hotkeys@.len(),
                pairs@ == all_pairs,
                table@ == build_hotkeys_prefix(all_pairs, hotkeys@, k as int),
            decreases m - k,
        {
            let hc = &hotkeys[k];
            match key_name_to_sym(hc.key.as_str()) {
                None => {},
                Some(sym) => {
                    match find_code(&pairs, sym) {
                        None => {},
                        Some(code) => {
                            let mask = parse_modifiers(hc.modifiers.as_str());
                            table.push(
                                Hotkey {
                                    _sym: sym,
                                    mask,
                                    action: clone_action(&hc.action),
                                    code,
                                    modifier: mask,
                                },
                            );
                        },
                    }
                },
            }
            proof {
                assert(table@ =~= build_hotkeys_prefix(all_pairs, hotkeys@, k as int + 1));
            }
            k = k + 1;
        }
        KeyHandler { _sym_code: pairs, hotkeys: table }
    }

    /// Answers a key press: the action of the first table entry whose
    /// modifier mask and keycode both match, if any.
    pub fn get_action(&self, state: u16, detail: u8) -> (r: Option<HotkeyAction>)
        ensures
            r == lookup_hotkey(self.hotkeys@, state, detail as u32),
    {
        let n = self.hotkeys.len();
        let mut i: usize = 0;
        proof {
            assert(self.hotkeys@.skip(0) =~= self.hotkeys@);
        }
        while i < n
            invariant
                i <= n,
                n == self.hotkeys@.len(),
                lookup_hotkey(self.hotkeys@, state, detail as u32) == lookup_hotkey(
                    self.hotkeys@.skip(i as int),
                    state,
                    detail as u32,
                ),
            decreases n - i,
        {
            proof {
                assert(self.hotkeys@.skip(i as int)[0] == self.hotkeys@[i as int]);
                assert(self.hotkeys@.skip(i as int).skip(1) =~= self.hotkeys@.skip(i as int + 1));
            }
            if self.hotkeys[i].mask == state && self.hotkeys[i].code == detail as u32 {
                return Some(clone_action(&self.hotkeys[i].action));
            }
            i = i + 1;
        }
        proof {
            assert(self.hotkeys@.skip(i as int) =~= Seq::<Hotkey>::empty());
        }
        None
    }
}

/// Hotkey lookup totality: when no two entries of the table share a
/// `(mask, keycode)` pair, looking up any entry's pair returns exactly the
/// action that entry was configured with.
pub proof fn lemma_hotkey_lookup_total(hks: Seq<Hotkey>, k: int)
    requires
        0 <= k < hks.len(),
        forall|i: int, j: int|
            0 <= i < j < hks.len() ==> ((#[trigger] hks[i]).mask != (#[trigger] hks[j]).mask
                || hks[i].code != hks[j].code),
    ensures
        lookup_hotkey(hks, hks[k].mask, hks[k].code) == Some(hks[k].action),
    decreases k,
{
    if k == 0 {
    } else {
        assert(hks[0].mask != hks[k].mask || hks[0].code != hks[k].code);
        let tail = hks.skip(1);
        assert forall|i: int, j: int| 0 <= i < j < tail.len() implies ((#[trigger] tail[i]).mask
            != (#[trigger] tail[j]).mask || tail[i].code != tail[j].code) by {
            assert(tail[i] == hks[i + 1]);
            assert(tail[j] == hks[j + 1]);
        }
        assert(tail[k - 1] == hks[k]);
        lemma_hotkey_lookup_total(tail, k - 1);
    }
}

} // verus!
