//! The rofi script-mode protocol: what each invocation does, the rows it
//! prints, and the hex text that carries a command between invocations.

use vstd::prelude::*;
use vstd::string::*;
use crate::entry::{fallback_icon, get_fallback_icon, Entry, EntryAction, EntryType};
use crate::entry::action_views;
use crate::text::{clone_strings, opt_view, views};

verus! {

/// Return code of rofi: first call.
pub const RETV_INIT_CALL: u8 = 0;
/// Return code of rofi: an entry was selected.
pub const RETV_SELECTED_ENTRY: u8 = 1;
/// Return code of rofi: custom text was entered.
pub const RETV_SELECTED_CUSTOM: u8 = 2;
/// Return code of rofi: an entry was deleted.
pub const RETV_DELETED_ENTRY: u8 = 3;
/// Return code of rofi: first custom key binding.
pub const RETV_CUSTOM_KB_1: u8 = 10;
/// Return code of rofi: second custom key binding.
pub const RETV_CUSTOM_KB_2: u8 = 11;

/// Commands carried in `ROFI_INFO` between invocations.
pub enum RofiCommand {
    ListEntries,
    Entry { entry: Entry, force_execute: bool },
    ExecuteAction(Entry, EntryAction),
}

impl Default for RofiCommand {
    fn default() -> (r: Self)
        ensures
            r is ListEntries,
    {
        RofiCommand::ListEntries
    }
}

/// What an invocation does before reading its command.
#[derive(Debug, Clone, Copy, PartialEq, Eq, Structural)]
pub enum RofiStart {
    /// Nothing at all.
    Ignore,
    /// Print the mode options, then go on.
    Init,
    /// Go on.
    Continue,
}

/// What an invocation does with its command.
#[derive(Debug, Clone, Copy, PartialEq, Eq, Structural)]
pub enum RofiStep {
    /// List the entries.
    ListEntries,
    /// Run the entry and end.
    ExecuteEntry,
    /// Tag the entry as favorite and offer to go back.
    AddFavorite,
    /// Offer to start the entry, its actions, or to go back.
    ShowEntryMenu,
    /// Run the action and end.
    ExecuteAction,
}

/// What an invocation with rofi's return code `status` does first.
pub fn rofi_start(status: u8) -> (r: RofiStart)
    ensures
        r == if status == RETV_INIT_CALL {
            RofiStart::Init
        } else if status == RETV_SELECTED_ENTRY || status == RETV_CUSTOM_KB_1 || status == RETV_CUSTOM_KB_2 {
            RofiStart::Continue
        } else {
            RofiStart::Ignore
        },
{
    if status == RETV_INIT_CALL {
        RofiStart::Init
    } else if status == RETV_SELECTED_ENTRY || status == RETV_CUSTOM_KB_1 || status == RETV_CUSTOM_KB_2 {
        RofiStart::Continue
    } else {
        RofiStart::Ignore
    }
}

/// What an invocation with return code `status` does with the command `cmd`:
/// an entry runs when selected or forced, the second key binding marks it
/// favorite, anything else shows its menu; an action always runs.
pub fn rofi_step(status: u8, cmd: &RofiCommand) -> (r: RofiStep)
    ensures
        r == match cmd {
            RofiCommand::ListEntries => RofiStep::ListEntries,
            RofiCommand::Entry { entry, force_execute } =>
                if status == RETV_SELECTED_ENTRY || *force_execute {
                    RofiStep::ExecuteEntry
                } else if status == RETV_CUSTOM_KB_2 {
                    RofiStep::AddFavorite
                } else {
                    RofiStep::ShowEntryMenu
                },
            RofiCommand::ExecuteAction(_, _) => RofiStep::ExecuteAction,
        },
{
    match cmd {
        RofiCommand::ListEntries => RofiStep::ListEntries,
        RofiCommand::Entry { entry: _, force_execute } => {
            if status == RETV_SELECTED_ENTRY || *force_execute {
                RofiStep::ExecuteEntry
            } else if status == RETV_CUSTOM_KB_2 {
                RofiStep::AddFavorite
            } else {
                RofiStep::ShowEntryMenu
            }
        },
        RofiCommand::ExecuteAction(_, _) => RofiStep::ExecuteAction,
    }
}

/// The mode options printed on the first call: no custom entries, custom key bindings on.
pub fn rofi_header() -> (r: Vec<String>)
    ensures
        views(r@) == seq!["\0no-custom\x1ftrue"@, "\0use-hot-keys\x1ftrue"@],
{
    let mut r: Vec<String> = Vec::new();
    r.push(String::from_str("\0no-custom\x1ftrue"));
    r.push(String::from_str("\0use-hot-keys\x1ftrue"));
    assert(views(r@) =~= seq!["\0no-custom\x1ftrue"@, "\0use-hot-keys\x1ftrue"@]);
    r
}

/// A row of the menu: its text, icon and the command it carries.
pub fn rofi_row(name: &str, icon: &str, info: &str) -> (r: String)
    ensures
        r@ == name@ + "\0icon\x1f"@ + icon@ + "\x1finfo\x1f"@ + info@,
{
    let mut r = String::from_str(name);
    r.append("\0icon\x1f");
    r.append(icon);
    r.append("\x1finfo\x1f");
    r.append(info);
    r
}

/// A row of the entry list: name, icon, searchable meta text and the command it carries.
pub fn rofi_entry_row(name: &str, icon: &str, meta: &str, info: &str) -> (r: String)
    ensures
        r@ == name@ + "\0icon\x1f"@ + icon@ + "\x1fmeta\x1f"@ + meta@ + "\x1finfo\x1f"@ + info@,
{
    let mut r = String::from_str(name);
    r.append("\0icon\x1f");
    r.append(icon);
    r.append("\x1fmeta\x1f");
    r.append(meta);
    r.append("\x1finfo\x1f");
    r.append(info);
    r
}

/// The icon of an entry: its own, else the fallback of its type.
pub open spec fn entry_icon_spec(icon: Option<Seq<char>>, t: EntryType) -> Seq<char> {
    match icon {
        Some(i) => i,
        None => fallback_icon(t),
    }
}

/// The icon shown for `entry`.
pub fn entry_icon(entry: &Entry) -> (r: String)
    ensures
        r@ == entry_icon_spec(opt_view(entry.icon), entry.entry_type),
{
    match &entry.icon {
        Some(i) => i.clone(),
        None => String::from_str(get_fallback_icon(&entry.entry_type)),
    }
}

/// The icon shown for an action of `entry`.
pub fn action_icon(entry: &Entry, action: &EntryAction) -> (r: String)
    ensures
        r@ == entry_icon_spec(opt_view(action.icon), entry.entry_type),
{
    match &action.icon {
        Some(i) => i.clone(),
        None => String::from_str(get_fallback_icon(&entry.entry_type)),
    }
}

/// A copy of an optional string.
fn copy_opt(o: &Option<String>) -> (r: Option<String>)
    ensures
        opt_view(r) == opt_view(*o),
{
    match o {
        Some(s) => Some(s.clone()),
        None => None,
    }
}

/// A copy of an action.
fn copy_action(a: &EntryAction) -> (r: EntryAction)
    ensures
        r@ == a@,
{
    EntryAction { name: a.name.clone(), exec_line: a.exec_line.clone(), icon: copy_opt(&a.icon) }
}

/// A copy of an entry.
fn copy_entry(e: &Entry) -> (r: Entry)
    ensures
        r@ == e@,
{
    let mut actions: Vec<EntryAction> = Vec::new();
    let mut i: usize = 0;
    while i < e.actions.len()
        invariant
            i <= e.actions@.len(),
            action_views(actions@) == action_views(e.actions@.take(i as int)),
        decreases e.actions@.len() - i,
    {
        let a = copy_action(&e.actions[i]);
        let ghost before = actions@;
        actions.push(a);
        assert(action_views(actions@) =~= action_views(before).push(a@));
        i += 1;
        assert(e.actions@.take(i as int) =~= e.actions@.take(i - 1).push(e.actions@[i - 1]));
        assert(action_views(e.actions@.take(i as int)) =~= action_views(e.actions@.take(i - 1)).push(e.actions@[i - 1]@));
    }
    assert(e.actions@.take(e.actions@.len() as int) =~= e.actions@);
    let r = Entry {
        id: e.id.clone(),
        entry_type: e.entry_type,
        name: e.name.clone(),
        generic_name: copy_opt(&e.generic_name),
        comment: copy_opt(&e.comment),
        exec_line: copy_opt(&e.exec_line),
        try_exec: copy_opt(&e.try_exec),
        path: copy_opt(&e.path),
        url: copy_opt(&e.url),
        categories: clone_strings(&e.categories),
        terminal: e.terminal,
        icon: copy_opt(&e.icon),
        only_show_in: clone_strings(&e.only_show_in),
        actions,
        tags: clone_strings(&e.tags),
    };
    assert(r@.actions =~= e@.actions);
    r
}

/// A row of the menu of an entry: its label, its icon and the command it carries.
pub struct MenuRow {
    pub label: String,
    pub icon: String,
    pub command: RofiCommand,
}

/// The menu of an entry: `Start` (running the entry at once), then one row
/// per action, in order (running that action), then `Back` (to the list).
pub fn entry_menu(entry: &Entry) -> (rows: Vec<MenuRow>)
    ensures
        rows@.len() == entry.actions@.len() + 2,
        rows@[0].label@ == "Start"@,
        rows@[0].icon@ == entry_icon_spec(opt_view(entry.icon), entry.entry_type),
        rows@[0].command matches RofiCommand::Entry { entry: e, force_execute: f } && e@ == entry@ && f,
        forall|i: int| 1 <= i <= entry.actions@.len() ==> {
            &&& (#[trigger] rows@[i]).label@ == entry.actions@[i - 1].name@
            &&& rows@[i].icon@ == entry_icon_spec(opt_view(entry.actions@[i - 1].icon), entry.entry_type)
            &&& rows@[i].command matches RofiCommand::ExecuteAction(e, a) && e@ == entry@ && a@ == entry.actions@[i - 1]@
        },
        rows@[rows@.len() - 1].label@ == "Back"@,
        rows@[rows@.len() - 1].icon@ == "go-previous"@,
        rows@[rows@.len() - 1].command is ListEntries,
{
    let mut rows: Vec<MenuRow> = Vec::new();
    rows.push(MenuRow {
        label: String::from_str("Start"),
        icon: entry_icon(entry),
        command: RofiCommand::Entry { entry: copy_entry(entry), force_execute: true },
    });
    let mut i: usize = 0;
    while i < entry.actions.len()
        invariant
            i <= entry.actions@.len(),
            rows@.len() == i + 1,
            rows@[0].label@ == "Start"@,
            rows@[0].icon@ == entry_icon_spec(opt_view(entry.icon), entry.entry_type),
            rows@[0].command matches RofiCommand::Entry { entry: e, force_execute: f } && e@ == entry@ && f,
            forall|k: int| 1 <= k <= i ==> {
                &&& (#[trigger] rows@[k]).label@ == entry.actions@[k - 1].name@
                &&& rows@[k].icon@ == entry_icon_spec(opt_view(entry.actions@[k - 1].icon), entry.entry_type)
                &&& rows@[k].command matches RofiCommand::ExecuteAction(e, a) && e@ == entry@ && a@ == entry.actions@[k - 1]@
            },
        decreases entry.actions@.len() - i,
    {
        let action = &entry.actions[i];
        rows.push(MenuRow {
            label: action.name.clone(),
            icon: action_icon(entry, action),
            command: RofiCommand::ExecuteAction(copy_entry(entry), copy_action(action)),
        });
        i += 1;
    }
    rows.push(MenuRow {
        label: String::from_str("Back"),
        icon: String::from_str("go-previous"),
        command: RofiCommand::ListEntries,
    });
    rows
}

/// The strings of `s` joined by single spaces, where no space follows an
/// empty beginning (empty strings at the front leave no space).
pub open spec fn join_spaced(s: Seq<Seq<char>>) -> Seq<char>
    decreases s.len(),
{
    if s.len() == 0 {
        Seq::empty()
    } else {
        let a = join_spaced(s.drop_last());
        if a.len() > 0 {
            a + seq![' '] + s.last()
        } else {
            a + s.last()
        }
    }
}

/// An optional string, empty when absent.
pub open spec fn or_empty(o: Option<Seq<char>>) -> Seq<char> {
    match o {
        Some(s) => s,
        None => Seq::empty(),
    }
}

/// The searchable meta text of an entry: generic name, comment and categories.
pub open spec fn entry_meta_spec(e: Entry) -> Seq<char> {
    or_empty(opt_view(e.generic_name)) + seq![' '] + or_empty(opt_view(e.comment)) + seq![' ']
        + join_spaced(views(e.categories@))
}

/// The meta text starts with the generic name, then a space, then the
/// comment, then a space, then the categories joined by spaces.
pub proof fn lemma_entry_meta_parts(e: Entry)
    ensures
        ({
            let g = or_empty(opt_view(e.generic_name));
            let c = or_empty(opt_view(e.comment));
            let gl = g.len() as int;
            let cl = c.len() as int;
            let m = entry_meta_spec(e);
            &&& m.take(gl) == g
            &&& m[gl] == ' '
            &&& m.subrange(gl + 1, gl + 1 + cl) == c
            &&& m[gl + 1 + cl] == ' '
            &&& m.skip(gl + cl + 2) == join_spaced(views(e.categories@))
        }),
{
    let g = or_empty(opt_view(e.generic_name));
    let c = or_empty(opt_view(e.comment));
    let gl = g.len() as int;
    let cl = c.len() as int;
    let m = entry_meta_spec(e);
    assert(m.take(gl) =~= g);
    assert(m.subrange(gl + 1, gl + 1 + cl) =~= c);
    assert(m.skip(gl + cl + 2) =~= join_spaced(views(e.categories@)));
}

/// The comment of an entry, when it has one, occurs in its meta text, so
/// rofi finds the entry by it.
pub proof fn lemma_entry_meta_has_comment(e: Entry, c: String)
    requires
        e.comment == Some(c),
    ensures
        entry_meta_spec(e).subrange(
            or_empty(opt_view(e.generic_name)).len() as int + 1,
            or_empty(opt_view(e.generic_name)).len() as int + 1 + c@.len(),
        ) == c@,
{
    lemma_entry_meta_parts(e);
}

/// One string joined is itself.
pub proof fn lemma_join_spaced_one(x: Seq<char>)
    ensures
        join_spaced(seq![x]) == x,
{
    assert(seq![x].drop_last() =~= Seq::<Seq<char>>::empty());
    assert(join_spaced(seq![x].drop_last()).len() == 0);
    assert(seq![x].last() == x);
    assert(Seq::<char>::empty() + x =~= x);
}

/// Joining one more string after a non-empty join puts one space before it.
pub proof fn lemma_join_spaced_push(s: Seq<Seq<char>>, x: Seq<char>)
    requires
        join_spaced(s).len() > 0,
    ensures
        join_spaced(s.push(x)) == join_spaced(s) + seq![' '] + x,
{
    assert(s.push(x).drop_last() =~= s);
}

/// Two strings, the first non-empty, are joined with one space between them.
pub proof fn lemma_join_spaced_two(x: Seq<char>, y: Seq<char>)
    requires
        x.len() > 0,
    ensures
        join_spaced(seq![x, y]) == x + seq![' '] + y,
{
    lemma_join_spaced_one(x);
    assert(seq![x].push(y) =~= seq![x, y]);
    lemma_join_spaced_push(seq![x], y);
}

/// The searchable meta text of `entry`.
pub fn entry_meta(entry: &Entry) -> (r: String)
    ensures
        r@ == entry_meta_spec(*entry),
{
    proof {
        reveal_strlit(" ");
    }
    let mut r = match &entry.generic_name {
        Some(g) => g.clone(),
        None => String::new(),
    };
    r.append(" ");
    match &entry.comment {
        Some(c) => r.append(c.as_str()),
        None => {},
    }
    r.append(" ");
    let ghost prefix = r@;
    let cats = &entry.categories;
    let mut acc = String::new();
    let mut i: usize = 0;
    assert(views(cats@).take(0) =~= Seq::<Seq<char>>::empty());
    while i < cats.len()
        invariant
            i <= cats@.len(),
            acc@ == join_spaced(views(cats@).take(i as int)),
        decreases cats@.len() - i,
    {
        assert(views(cats@).take(i + 1).drop_last() =~= views(cats@).take(i as int));
        assert(views(cats@).take(i + 1).last() == cats@[i as int]@);
        proof {
            reveal_strlit(" ");
        }
        if !acc.as_str().is_empty() {
            acc.append(" ");
        }
        acc.append(cats[i].as_str());
        i += 1;
    }
    assert(views(cats@).take(cats@.len() as int) =~= views(cats@));
    r.append(acc.as_str());
    assert(r@ =~= entry_meta_spec(*entry));
    r
}

/// The lower-case hex digit of a value below 16.
pub open spec fn hex_digit(n: int) -> char {
    if n < 10 {
        (n + 48) as char
    } else {
        (n + 87) as char
    }
}

/// The value of a hex digit (either case), if `c` is one.
pub open spec fn hex_value(c: char) -> Option<int> {
    if '0' <= c && c <= '9' {
        Some(c as int - 48)
    } else if 'a' <= c && c <= 'f' {
        Some(c as int - 87)
    } else if 'A' <= c && c <= 'F' {
        Some(c as int - 55)
    } else {
        None
    }
}

/// Bytes as lower-case hex text, two digits per byte, high digit first.
pub open spec fn hex_encode(b: Seq<u8>) -> Seq<char>
    decreases b.len(),
{
    if b.len() == 0 {
        Seq::empty()
    } else {
        seq![hex_digit(b[0] as int / 16), hex_digit(b[0] as int % 16)] + hex_encode(b.drop_first())
    }
}

/// The bytes that hex text denotes, if it is an even number of hex digits.
pub open spec fn hex_decode(s: Seq<char>) -> Option<Seq<u8>>
    decreases s.len(),
{
    if s.len() == 0 {
        Some(Seq::empty())
    } else if s.len() == 1 {
        None
    } else {
        match (hex_value(s[0]), hex_value(s[1]), hex_decode(s.skip(2))) {
            (Some(h), Some(l), Some(rest)) => Some(seq![(h * 16 + l) as u8] + rest),
            _ => None,
        }
    }
}

/// Hex text decodes back to the bytes it encodes.
pub proof fn lemma_hex_roundtrip(b: Seq<u8>)
    ensures
        hex_decode(hex_encode(b)) == Some(b),
    decreases b.len(),
{
    if b.len() > 0 {
        lemma_hex_roundtrip(b.drop_first());
        let e = hex_encode(b);
        let h = b[0] as int / 16;
        let l = b[0] as int % 16;
        assert(e.skip(2) =~= hex_encode(b.drop_first()));
        assert(hex_value(hex_digit(h)) == Some(h));
        assert(hex_value(hex_digit(l)) == Some(l));
        assert((h * 16 + l) as u8 == b[0]);
        assert(seq![b[0]] + b.drop_first() =~= b);
    }
}

/// Encoding gives two lower-case hex digits per byte.
pub proof fn lemma_hex_encode_lower(b: Seq<u8>)
    ensures
        hex_encode(b).len() == 2 * b.len(),
        forall|i: int| 0 <= i < hex_encode(b).len() ==>
            ('0' <= #[trigger] hex_encode(b)[i] <= '9') || ('a' <= hex_encode(b)[i] <= 'f'),
    decreases b.len(),
{
    if b.len() > 0 {
        lemma_hex_encode_lower(b.drop_first());
        let h = b[0] as int / 16;
        let l = b[0] as int % 16;
        let e = hex_encode(b);
        let t = hex_encode(b.drop_first());
        assert forall|i: int| 0 <= i < e.len() implies ('0' <= #[trigger] e[i] <= '9') || ('a' <= e[i] <= 'f') by {
            if i >= 2 {
                assert(e[i] == t[i - 2]);
            } else if i == 0 {
                assert(e[0] == hex_digit(h));
            } else {
                assert(e[1] == hex_digit(l));
            }
        }
    }
}

/// Each byte gives its high digit, then its low digit, ahead of the rest.
pub proof fn lemma_hex_encode_byte(x: u8, rest: Seq<u8>)
    ensures
        hex_value(hex_encode(seq![x] + rest)[0]) == Some(x as int / 16),
        hex_value(hex_encode(seq![x] + rest)[1]) == Some(x as int % 16),
        hex_encode(seq![x] + rest).skip(2) == hex_encode(rest),
{
    let b = seq![x] + rest;
    assert(b[0] == x);
    assert(b.drop_first() =~= rest);
    assert(hex_encode(b).skip(2) =~= hex_encode(rest));
}

/// The error of `hex::decode` (`hex::FromHexError`), opaque here.
#[verifier::external_type_specification]
#[verifier::external_body]
pub struct ExFromHexError(hex::FromHexError);

/// Calls `hex::encode`. Claimed: each byte becomes two lower-case hex digits,
/// high digit first.
#[verifier::external_body]
fn hex_encode_bytes(data: &[u8]) -> (r: String)
    ensures
        r@ == hex_encode(data@),
{
    hex::encode(data)
}

/// Calls `hex::decode` on the bytes of `s`. Claimed: it succeeds exactly on
/// an even number of hex digits (either case), with the bytes they denote.
#[verifier::external_body]
fn hex_decode_str(s: &str) -> (r: Result<Vec<u8>, hex::FromHexError>)
    ensures
        r is Ok <==> hex_decode(s@) is Some,
        r matches Ok(v) ==> hex_decode(s@) == Some(v@),
{
    hex::decode(s)
}

/// Why `ROFI_INFO` text does not denote a command.
#[derive(Debug, Clone, Copy, PartialEq, Eq, Structural)]
pub enum InfoError {
    /// The text is not an even number of hex digits.
    NotHex,
}

/// The text that carries a serialized command: its bytes in hex.
pub fn encode_info(bytes: &[u8]) -> (r: String)
    ensures
        r@ == hex_encode(bytes@),
{
    hex_encode_bytes(bytes)
}

/// The serialized command that text carries.
pub fn decode_info(text: &str) -> (r: Result<Vec<u8>, InfoError>)
    ensures
        match hex_decode(text@) {
            Some(b) => r matches Ok(v) && v@ == b,
            None => r == Err::<Vec<u8>, InfoError>(InfoError::NotHex),
        },
{
    match hex_decode_str(text) {
        Ok(v) => Ok(v),
        Err(_) => Err(InfoError::NotHex),
    }
}

} // verus!
