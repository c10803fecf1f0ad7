//! Desktop entries and their parsing from a desktop file.

use vstd::prelude::*;
use vstd::string::*;
use configparser::ini::Ini;
use crate::config::{tags_in, Config};
use crate::text::{dedup, dedup_strings, lemma_dedup_each_once, opt_view, split_char, split_on, str_equal, views};

verus! {

/// Kind of a desktop entry.
#[derive(Debug, Clone, Copy, PartialEq, Eq, Structural, Hash)]
pub enum EntryType {
    /// Application desktop file
    Application,
    /// Link desktop file that opens an URL
    Link,
    /// Other entry types, just ignored
    Other,
}

impl Default for EntryType {
    fn default() -> (r: Self)
        ensures
            r == EntryType::Application,
    {
        EntryType::Application
    }
}

/// The entry type that a `Type` value names.
pub open spec fn entry_type_of(s: Seq<char>) -> EntryType {
    if s == "Application"@ {
        EntryType::Application
    } else if s == "Link"@ {
        EntryType::Link
    } else {
        EntryType::Other
    }
}

/// The name under which an entry type is written.
pub open spec fn entry_type_name(t: EntryType) -> Seq<char> {
    match t {
        EntryType::Application => "Application"@,
        EntryType::Link => "Link"@,
        EntryType::Other => "Other"@,
    }
}

impl<'a> From<&'a str> for EntryType {
    fn from(value: &'a str) -> (r: Self)
        ensures
            r == entry_type_of(value@),
    {
        if str_equal(value, "Application") {
            EntryType::Application
        } else if str_equal(value, "Link") {
            EntryType::Link
        } else {
            EntryType::Other
        }
    }
}

impl<'a> vstd::std_specs::convert::FromSpecImpl<&'a str> for EntryType {
    open spec fn obeys_from_spec() -> bool {
        true
    }

    open spec fn from_spec(v: &'a str) -> Self {
        entry_type_of(v@)
    }
}

impl EntryType {
    /// The name under which this entry type is written (its display form).
    pub fn as_str(&self) -> (s: &'static str)
        ensures
            s@ == entry_type_name(*self),
    {
        match self {
            EntryType::Application => "Application",
            EntryType::Link => "Link",
            EntryType::Other => "Other",
        }
    }
}

/// Reading the display name of an entry type back gives the same type.
pub proof fn lemma_entry_type_name_roundtrip(t: EntryType)
    ensures
        entry_type_of(entry_type_name(t)) == t,
{
    reveal_strlit("Application");
    reveal_strlit("Link");
    reveal_strlit("Other");
    assert("Application"@.len() == 11 && "Link"@.len() == 4 && "Other"@.len() == 5);
    assert("Link"@ != "Application"@);
    assert("Other"@ != "Application"@ && "Other"@ != "Link"@);
}

/// The icon shown for an entry of the given type when it names none.
pub open spec fn fallback_icon(t: EntryType) -> Seq<char> {
    match t {
        EntryType::Application => "application-x-executable"@,
        EntryType::Link => "open-link"@,
        EntryType::Other => ""@,
    }
}

/// The icon shown for an entry of the given type when it names none.
pub fn get_fallback_icon(entry_type: &EntryType) -> (r: &'static str)
    ensures
        r@ == fallback_icon(*entry_type),
{
    match entry_type {
        EntryType::Application => "application-x-executable",
        EntryType::Link => "open-link",
        EntryType::Other => "",
    }
}

/// An additional action of an entry (a `Desktop Action` section).
#[derive(Debug, Clone, Default, PartialEq)]
pub struct EntryAction {
    pub name: String,
    pub exec_line: String,
    pub icon: Option<String>,
}

/// The content of an action.
pub struct ActionModel {
    pub name: Seq<char>,
    pub exec_line: Seq<char>,
    pub icon: Option<Seq<char>>,
}

impl View for EntryAction {
    type V = ActionModel;

    open spec fn view(&self) -> ActionModel {
        ActionModel { name: self.name@, exec_line: self.exec_line@, icon: opt_view(self.icon) }
    }
}

/// A desktop entry: an application or a link.
#[derive(Debug, Clone, Default, PartialEq)]
pub struct Entry {
    pub id: String,
    pub entry_type: EntryType,
    pub name: String,
    /// Should be generic name like "Web Browser" but some applications write whole paragraphs in it
    pub generic_name: Option<String>,
    pub comment: Option<String>,
    /// The `Exec` value, cleaned of field codes
    pub exec_line: Option<String>,
    /// Used to check whether the executable is installed
    pub try_exec: Option<String>,
    /// Working directory where the command is executed
    pub path: Option<String>,
    /// Only present when the type is `Link`
    pub url: Option<String>,
    /// Categories, each once
    pub categories: Vec<String>,
    /// Does this entry run in a terminal
    pub terminal: bool,
    pub icon: Option<String>,
    /// Desktop environments this entry is shown in only, each once
    pub only_show_in: Vec<String>,
    /// Actions of the entry
    pub actions: Vec<EntryAction>,
    /// Tags the user applied, each once
    pub tags: Vec<String>,
}

/// The content of an entry.
pub struct EntryModel {
    pub id: Seq<char>,
    pub entry_type: EntryType,
    pub name: Seq<char>,
    pub generic_name: Option<Seq<char>>,
    pub comment: Option<Seq<char>>,
    pub exec_line: Option<Seq<char>>,
    pub try_exec: Option<Seq<char>>,
    pub path: Option<Seq<char>>,
    pub url: Option<Seq<char>>,
    pub categories: Seq<Seq<char>>,
    pub terminal: bool,
    pub icon: Option<Seq<char>>,
    pub only_show_in: Seq<Seq<char>>,
    pub actions: Seq<ActionModel>,
    pub tags: Seq<Seq<char>>,
}

/// The contents of a sequence of actions.
pub open spec fn action_views(s: Seq<EntryAction>) -> Seq<ActionModel> {
    s.map_values(|a: EntryAction| a@)
}

impl View for Entry {
    type V = EntryModel;

    open spec fn view(&self) -> EntryModel {
        EntryModel {
            id: self.id@,
            entry_type: self.entry_type,
            name: self.name@,
            generic_name: opt_view(self.generic_name),
            comment: opt_view(self.comment),
            exec_line: opt_view(self.exec_line),
            try_exec: opt_view(self.try_exec),
            path: opt_view(self.path),
            url: opt_view(self.url),
            categories: views(self.categories@),
            terminal: self.terminal,
            icon: opt_view(self.icon),
            only_show_in: views(self.only_show_in@),
            actions: action_views(self.actions@),
            tags: views(self.tags@),
        }
    }
}

impl Entry {
    /// Whether the categories, the desktop environments and the tags each
    /// hold every item once.
    pub open spec fn well_formed(self) -> bool {
        &&& views(self.categories@).no_duplicates()
        &&& views(self.only_show_in@).no_duplicates()
        &&& views(self.tags@).no_duplicates()
    }
}

/// Whether a character is an ASCII letter.
pub open spec fn is_ascii_letter(c: char) -> bool {
    ('a' <= c && c <= 'z') || ('A' <= c && c <= 'Z')
}

/// An `Exec` value cleaned from the left: `%%` is an escaped percent sign
/// and stays as one `%`; any other `%` followed by an ASCII letter is a
/// field code and is removed together with that letter.
pub open spec fn clean_exec_spec(s: Seq<char>) -> Seq<char>
    decreases s.len(),
{
    if s.len() == 0 {
        s
    } else if s.len() >= 2 && s[0] == '%' && s[1] == '%' {
        seq!['%'] + clean_exec_spec(s.skip(2))
    } else if s.len() >= 2 && s[0] == '%' && is_ascii_letter(s[1]) {
        clean_exec_spec(s.skip(2))
    } else {
        seq![s[0]] + clean_exec_spec(s.skip(1))
    }
}

/// Calls `regex::Regex::new(pattern)` and `Regex::replace_all(haystack, rep)`
/// for the pattern `%(%)|%[a-zA-Z]` and the replacement `$1`. Claimed: the
/// leftmost-first, non-overlapping matches are replaced from the left, an
/// escaped `%%` by its captured `%` and a field code by nothing (the group
/// takes no part there), i.e. the result is `clean_exec_spec(haystack@)`.
#[verifier::external_body]
fn regex_replace_all(pattern: &str, haystack: &str, rep: &str) -> (r: String)
    requires
        pattern@ == "%(%)|%[a-zA-Z]"@,
        rep@ == "$1"@,
    ensures
        r@ == clean_exec_spec(haystack@),
{
    regex::Regex::new(pattern).unwrap().replace_all(haystack, rep).into_owned()
}

impl Entry {
    /// Removes the field codes (`%f`, `%U`, ...) from an `Exec` value and
    /// turns each escaped `%%` into `%`.
    pub fn clean_exec(exec: &String) -> (r: String)
        ensures
            r@ == clean_exec_spec(exec@),
    {
        regex_replace_all("%(%)|%[a-zA-Z]", exec.as_str(), "$1")
    }
}

/// The parsed ini file of `configparser` (`configparser::ini::Ini`), opaque here.
#[verifier::external_type_specification]
#[verifier::external_body]
pub struct ExIni(Ini);

/// What `Ini::get` gives back for each (section, key) query of a parsed ini
/// file: a query is in the domain exactly when `get` returns a value.
pub uninterp spec fn ini_values(ini: Ini) -> Map<(Seq<char>, Seq<char>), Seq<char>>;

/// The value of `key` in `section`, if any.
pub open spec fn lookup(ini: Ini, section: Seq<char>, key: Seq<char>) -> Option<Seq<char>> {
    if ini_values(ini).contains_key((section, key)) {
        Some(ini_values(ini)[(section, key)])
    } else {
        None
    }
}

/// Whether two strings are equal up to ASCII case.
pub open spec fn eq_ignore_ascii_case(a: Seq<char>, b: Seq<char>) -> bool {
    a.len() == b.len() && forall|i: int| 0 <= i < a.len() ==> ascii_lower(#[trigger] a[i]) == ascii_lower(b[i])
}

/// The ASCII lower-case form of a character.
pub open spec fn ascii_lower(c: char) -> char {
    if 'A' <= c && c <= 'Z' {
        ((c as u32) + 32) as char
    } else {
        c
    }
}

/// The boolean an ini value denotes: `true` or `false` in any ASCII case.
pub open spec fn ini_bool(v: Seq<char>) -> Option<bool> {
    if eq_ignore_ascii_case(v, seq!['t', 'r', 'u', 'e']) {
        Some(true)
    } else if eq_ignore_ascii_case(v, seq!['f', 'a', 'l', 's', 'e']) {
        Some(false)
    } else {
        None
    }
}

/// Whether an optional ini value is present and denotes `true`.
pub open spec fn is_true(v: Option<Seq<char>>) -> bool {
    match v {
        Some(v) => ini_bool(v) == Some(true),
        None => false,
    }
}

/// Calls `Ini::get`. Claimed: it returns the value `ini_values` holds for the query.
#[verifier::external_body]
fn ini_get(ini: &Ini, section: &str, key: &str) -> (r: Option<String>)
    ensures
        ini_values(*ini).contains_key((section@, key@)) ==> opt_view(r) == Some(ini_values(*ini)[(section@, key@)]),
        !ini_values(*ini).contains_key((section@, key@)) ==> r is None,
{
    ini.get(section, key)
}

/// Whether `c` is the lower-case ASCII letter `t` up to ASCII case.
fn ascii_lower_is(c: char, t: char) -> (r: bool)
    requires
        'a' <= t <= 'z',
    ensures
        r == (ascii_lower(c) == t),
{
    c == t || (c as u32) + 32 == t as u32
}

/// Whether `v` equals the lower-case ASCII word `w` up to ASCII case.
fn eq_ignore_case_word(v: &str, w: &str) -> (r: bool)
    requires
        forall|i: int| 0 <= i < w@.len() ==> 'a' <= #[trigger] w@[i] <= 'z',
    ensures
        r == eq_ignore_ascii_case(v@, w@),
{
    let n = v.unicode_len();
    if n != w.unicode_len() {
        return false;
    }
    let mut i: usize = 0;
    while i < n
        invariant
            n == v@.len(),
            n == w@.len(),
            i <= n,
            forall|k: int| 0 <= k < w@.len() ==> 'a' <= #[trigger] w@[k] <= 'z',
            forall|k: int| 0 <= k < i ==> ascii_lower(#[trigger] v@[k]) == ascii_lower(w@[k]),
        decreases n - i,
    {
        let c = w.get_char(i);
        assert(ascii_lower(c) == c);
        if !ascii_lower_is(v.get_char(i), c) {
            return false;
        }
        i += 1;
    }
    true
}

/// The boolean value of `key` in `section`, read as `Ini::getbool` reads
/// the value `get` gives: no value gives `Ok(None)`, `true`/`false` in any
/// ASCII case gives `Ok(Some(b))`, anything else an error. (`Ini::getbool`
/// itself is not called: with `cascade_defaults` on and a default section
/// whose name has upper-case letters, its search for a missing key never ends.)
fn ini_getbool(ini: &Ini, section: &str, key: &str) -> (r: Result<Option<bool>, String>)
    ensures
        match lookup(*ini, section@, key@) {
            None => r matches Ok(None),
            Some(v) => match ini_bool(v) {
                Some(b) => r matches Ok(Some(x)) && x == b,
                None => r is Err,
            },
        },
{
    proof {
        reveal_strlit("true");
        reveal_strlit("false");
    }
    match ini_get(ini, section, key) {
        None => Ok(None),
        Some(v) => {
            if eq_ignore_case_word(v.as_str(), "true") {
                Ok(Some(true))
            } else if eq_ignore_case_word(v.as_str(), "false") {
                Ok(Some(false))
            } else {
                Err(String::from_str("provided string was not `true` or `false`"))
            }
        },
    }
}

/// The language of a query, as a view.
pub open spec fn lang_view(lang: Option<&str>) -> Option<Seq<char>> {
    match lang {
        Some(l) => Some(l@),
        None => None,
    }
}

/// The value of a localizable key: with a non-empty language, the key with
/// the `[lang]` marker, else the plain key; without one, the plain key.
pub open spec fn localized(ini: Ini, section: Seq<char>, key: Seq<char>, lang: Option<Seq<char>>) -> Option<Seq<char>> {
    match lang {
        Some(l) => if l.len() > 0 {
            match lookup(ini, section, key + "["@ + l + "]"@) {
                Some(v) => Some(v),
                None => lookup(ini, section, key),
            }
        } else {
            lookup(ini, section, key)
        },
        None => lookup(ini, section, key),
    }
}

/// The main section of a desktop file.
pub open spec fn main_section() -> Seq<char> {
    "Desktop Entry"@
}

/// The section of the action named `name`.
pub open spec fn action_section(name: Seq<char>) -> Seq<char> {
    "Desktop Action "@ + name
}

/// The names of the actions of a desktop file.
pub open spec fn action_names(ini: Ini) -> Seq<Seq<char>> {
    match lookup(ini, main_section(), "Actions"@) {
        Some(v) => split_on(v, ';'),
        None => Seq::empty(),
    }
}

/// The error that reading the action `name` fails with, if any.
pub open spec fn action_error(ini: Ini, lang: Option<Seq<char>>, name: Seq<char>) -> Option<Seq<char>> {
    if localized(ini, action_section(name), "Name"@, lang) is None {
        Some("Name is required in actions"@)
    } else if lookup(ini, action_section(name), "Exec"@) is None {
        Some("Exec is required in actions"@)
    } else {
        None
    }
}

/// The first error among the actions `names`, in order.
pub open spec fn first_action_error(ini: Ini, lang: Option<Seq<char>>, names: Seq<Seq<char>>) -> Option<Seq<char>>
    decreases names.len(),
{
    if names.len() == 0 {
        None
    } else {
        match first_action_error(ini, lang, names.drop_last()) {
            Some(e) => Some(e),
            None => action_error(ini, lang, names.last()),
        }
    }
}

/// An error among the first actions is the first error of all of them.
proof fn lemma_first_action_error_prefix(ini: Ini, lang: Option<Seq<char>>, names: Seq<Seq<char>>, k: int)
    requires
        0 <= k <= names.len(),
        first_action_error(ini, lang, names.take(k)) is Some,
    ensures
        first_action_error(ini, lang, names) == first_action_error(ini, lang, names.take(k)),
    decreases names.len(),
{
    if k < names.len() {
        assert(names.drop_last().take(k) =~= names.take(k));
        lemma_first_action_error_prefix(ini, lang, names.drop_last(), k);
    } else {
        assert(names.take(k) =~= names);
    }
}

/// The action read from the section of the action `name`.
pub open spec fn action_model(ini: Ini, lang: Option<Seq<char>>, name: Seq<char>) -> ActionModel {
    ActionModel {
        name: localized(ini, action_section(name), "Name"@, lang).unwrap(),
        exec_line: clean_exec_spec(lookup(ini, action_section(name), "Exec"@).unwrap()),
        icon: lookup(ini, action_section(name), "Icon"@),
    }
}

/// The `;`-separated list of a key, each item once.
pub open spec fn item_set(v: Option<Seq<char>>) -> Seq<Seq<char>> {
    match v {
        Some(v) => dedup(split_on(v, ';')),
        None => Seq::empty(),
    }
}

/// A cleaned optional `Exec` value.
pub open spec fn clean_opt(v: Option<Seq<char>>) -> Option<Seq<char>> {
    match v {
        Some(v) => Some(clean_exec_spec(v)),
        None => None,
    }
}

/// What reading a desktop file gives: `Ok(None)` for a hidden entry or one
/// of another type, an error for a missing required key, else the entry.
pub open spec fn parse_entry(ini: Ini, id: Seq<char>, lang: Option<Seq<char>>, tags: Seq<Seq<char>>) -> Result<Option<EntryModel>, Seq<char>> {
    let sec = main_section();
    if is_true(lookup(ini, sec, "NoDisplay"@)) {
        Ok(None)
    } else if lookup(ini, sec, "Type"@) is None {
        Err("Type is required in desktop files"@)
    } else if entry_type_of(lookup(ini, sec, "Type"@).unwrap()) == EntryType::Other {
        Ok(None)
    } else if first_action_error(ini, lang, action_names(ini)) is Some {
        Err(first_action_error(ini, lang, action_names(ini)).unwrap())
    } else if localized(ini, sec, "Name"@, lang) is None {
        Err("Name is required in desktop files"@)
    } else {
        Ok(Some(EntryModel {
            id: id,
            entry_type: entry_type_of(lookup(ini, sec, "Type"@).unwrap()),
            name: localized(ini, sec, "Name"@, lang).unwrap(),
            generic_name: localized(ini, sec, "GenericName"@, lang),
            comment: localized(ini, sec, "Comment"@, lang),
            exec_line: clean_opt(lookup(ini, sec, "Exec"@)),
            try_exec: lookup(ini, sec, "TryExec"@),
            path: lookup(ini, sec, "Path"@),
            url: lookup(ini, sec, "URL"@),
            categories: item_set(lookup(ini, sec, "Categories"@)),
            terminal: is_true(lookup(ini, sec, "Terminal"@)),
            icon: lookup(ini, sec, "Icon"@),
            only_show_in: item_set(lookup(ini, sec, "OnlyShowIn"@)),
            actions: action_names(ini).map_values(|n: Seq<char>| action_model(ini, lang, n)),
            tags: tags,
        }))
    }
}

/// What an entry read from a desktop file holds, key by key: each field
/// comes from its own key of the main section (the command from `Exec`
/// alone, whatever `Terminal` says), the id and tags from the caller.
pub proof fn lemma_parse_entry_fields(ini: Ini, id: Seq<char>, lang: Option<Seq<char>>, tags: Seq<Seq<char>>)
    ensures
        parse_entry(ini, id, lang, tags) matches Ok(Some(m)) ==> {
            &&& m.id == id
            &&& m.tags == tags
            &&& lookup(ini, "Desktop Entry"@, "Type"@) matches Some(t)
            &&& m.entry_type == entry_type_of(t)
            &&& m.entry_type != EntryType::Other
            &&& m.exec_line == match lookup(ini, "Desktop Entry"@, "Exec"@) {
                Some(v) => Some(clean_exec_spec(v)),
                None => None,
            }
            &&& m.terminal == (lookup(ini, "Desktop Entry"@, "Terminal"@) matches Some(v) && ini_bool(v) == Some(true))
            &&& m.icon == lookup(ini, "Desktop Entry"@, "Icon"@)
            &&& m.try_exec == lookup(ini, "Desktop Entry"@, "TryExec"@)
            &&& m.path == lookup(ini, "Desktop Entry"@, "Path"@)
            &&& m.url == lookup(ini, "Desktop Entry"@, "URL"@)
            &&& m.categories == match lookup(ini, "Desktop Entry"@, "Categories"@) {
                Some(v) => dedup(split_on(v, ';')),
                None => Seq::empty(),
            }
            &&& m.only_show_in == match lookup(ini, "Desktop Entry"@, "OnlyShowIn"@) {
                Some(v) => dedup(split_on(v, ';')),
                None => Seq::empty(),
            }
            &&& lang == None::<Seq<char>> ==> lookup(ini, "Desktop Entry"@, "Name"@) == Some(m.name)
        },
{
}

/// A desktop file marked `NoDisplay=true` gives no entry, whatever else it holds.
pub proof fn lemma_parse_entry_hidden(ini: Ini, id: Seq<char>, lang: Option<Seq<char>>, tags: Seq<Seq<char>>)
    requires
        lookup(ini, "Desktop Entry"@, "NoDisplay"@) matches Some(v) && ini_bool(v) == Some(true),
    ensures
        parse_entry(ini, id, lang, tags) == Ok::<Option<EntryModel>, Seq<char>>(None),
{
}

/// A shown desktop file without `Type` is an error.
pub proof fn lemma_parse_entry_needs_type(ini: Ini, id: Seq<char>, lang: Option<Seq<char>>, tags: Seq<Seq<char>>)
    requires
        !is_true(lookup(ini, "Desktop Entry"@, "NoDisplay"@)),
        lookup(ini, "Desktop Entry"@, "Type"@) is None,
    ensures
        parse_entry(ini, id, lang, tags) is Err,
{
}

/// An `Exec` value without `%` is kept as it is.
pub proof fn lemma_clean_exec_plain(s: Seq<char>)
    requires
        !s.contains('%'),
    ensures
        clean_exec_spec(s) == s,
    decreases s.len(),
{
    if s.len() > 0 {
        assert(s[0] != '%');
        assert(!s.skip(1).contains('%')) by {
            if s.skip(1).contains('%') {
                let k = choose|k: int| 0 <= k < s.skip(1).len() && s.skip(1)[k] == '%';
                assert(s[k + 1] == '%');
            }
        }
        lemma_clean_exec_plain(s.skip(1));
        assert(seq![s[0]] + s.skip(1) =~= s);
    }
}

/// An escaped `%%` gives one `%`, and what follows is cleaned on its own.
pub proof fn lemma_clean_exec_escape(x: Seq<char>)
    ensures
        clean_exec_spec(seq!['%', '%'] + x) == seq!['%'] + clean_exec_spec(x),
{
    let s = seq!['%', '%'] + x;
    assert(s[0] == '%' && s[1] == '%');
    assert(s.skip(2) =~= x);
}

/// A field code (`%` and a letter) leaves nothing.
pub proof fn lemma_clean_exec_field_code(c: char, x: Seq<char>)
    requires
        ('a' <= c <= 'z') || ('A' <= c <= 'Z'),
    ensures
        clean_exec_spec(seq!['%', c] + x) == clean_exec_spec(x),
{
    let s = seq!['%', c] + x;
    assert(s[0] == '%' && s[1] == c);
    assert(s.skip(2) =~= x);
}

/// The content of the result of reading a desktop file.
pub open spec fn parse_result_view(r: Result<Option<Entry>, String>) -> Result<Option<EntryModel>, Seq<char>> {
    match r {
        Ok(Some(e)) => Ok(Some(e@)),
        Ok(None) => Ok(None),
        Err(m) => Err(m@),
    }
}

/// The value of a localizable key (see `localized`).
fn get_localized(ini: &Ini, section: &str, key: &str, lang: Option<&str>) -> (r: Option<String>)
    ensures
        opt_view(r) == localized(*ini, section@, key@, lang_view(lang)),
{
    match lang {
        Some(l) => {
            if !l.is_empty() {
                let mut k = String::from_str(key);
                k.append("[");
                k.append(l);
                k.append("]");
                match ini_get(ini, section, k.as_str()) {
                    Some(v) => Some(v),
                    None => ini_get(ini, section, key),
                }
            } else {
                ini_get(ini, section, key)
            }
        },
        None => ini_get(ini, section, key),
    }
}

/// The `;`-separated items of an optional value, each once.
fn items_of(v: Option<String>) -> (r: Vec<String>)
    ensures
        views(r@) == item_set(opt_view(v)),
        views(r@).no_duplicates(),
{
    match v {
        Some(v) => {
            proof {
                lemma_dedup_each_once(split_on(v@, ';'));
            }
            dedup_strings(split_char(v.as_str(), ';'))
        },
        None => {
            let r: Vec<String> = Vec::new();
            assert(views(r@) =~= Seq::<Seq<char>>::empty());
            r
        },
    }
}

impl Entry {
    /// Reads the entry `id` from a parsed desktop file, with the tags that
    /// `config` gives it. Hidden entries (`NoDisplay=true`) and entries of
    /// another type than `Application` or `Link` give `Ok(None)`.
    pub fn from_parser(parser: &Ini, id: &str, lang: Option<&str>, config: &Config) -> (r: Result<Option<Self>, String>)
        ensures
            parse_result_view(r) == parse_entry(*parser, id@, lang_view(lang), tags_in(config@, id@)),
            r matches Ok(Some(e)) ==> (config.well_formed() ==> e.well_formed()),
    {
        let ghost ini = *parser;
        let ghost lv = lang_view(lang);
        // skip hidden entries
        let no_display = ini_getbool(parser, "Desktop Entry", "NoDisplay");
        if let Ok(Some(true)) = no_display {
            return Ok(None);
        }
        let type_value = match ini_get(parser, "Desktop Entry", "Type") {
            Some(t) => t,
            None => return Err(String::from_str("Type is required in desktop files")),
        };
        let entry_type = EntryType::from(type_value.as_str());
        // ignore other types
        if let EntryType::Other = entry_type {
            return Ok(None);
        }
        let mut actions: Vec<EntryAction> = Vec::new();
        let names: Vec<String> = match ini_get(parser, "Desktop Entry", "Actions") {
            Some(v) => split_char(v.as_str(), ';'),
            None => Vec::new(),
        };
        assert(views(names@) =~= action_names(ini));
        let mut i: usize = 0;
        assert(views(names@).take(0) =~= Seq::<Seq<char>>::empty());
        assert(action_views(actions@) =~= Seq::<ActionModel>::empty());
        while i < names.len()
            invariant
                i <= names@.len(),
                views(names@) == action_names(ini),
                ini == *parser,
                lv == lang_view(lang),
                !is_true(lookup(ini, main_section(), "NoDisplay"@)),
                lookup(ini, main_section(), "Type"@) is Some,
                entry_type_of(lookup(ini, main_section(), "Type"@).unwrap()) != EntryType::Other,
                first_action_error(ini, lv, views(names@).take(i as int)) is None,
                action_views(actions@) =~= views(names@).take(i as int).map_values(|n: Seq<char>| action_model(ini, lv, n)),
            decreases names@.len() - i,
        {
            let ghost name_view = names@[i as int]@;
            assert(views(names@).take(i + 1).drop_last() =~= views(names@).take(i as int));
            assert(views(names@).take(i + 1).last() == name_view);
            let mut section = String::from_str("Desktop Action ");
            section.append(names[i].as_str());
            assert(first_action_error(ini, lv, views(names@).take(i + 1)) == action_error(ini, lv, name_view));
            let name = match get_localized(parser, section.as_str(), "Name", lang) {
                Some(n) => n,
                None => {
                    proof {
                        lemma_first_action_error_prefix(ini, lv, views(names@), i + 1);
                    }
                    return Err(String::from_str("Name is required in actions"));
                },
            };
            let exec = match ini_get(parser, section.as_str(), "Exec") {
                Some(e) => e,
                None => {
                    proof {
                        lemma_first_action_error_prefix(ini, lv, views(names@), i + 1);
                    }
                    return Err(String::from_str("Exec is required in actions"));
                },
            };
            let icon = ini_get(parser, section.as_str(), "Icon");
            let action = EntryAction { name, exec_line: Self::clean_exec(&exec), icon };
            let ghost before = actions@;
            actions.push(action);
            assert(actions@ == before.push(action));
            assert(action_views(actions@) =~= action_views(before).push(action@));
            i += 1;
            assert(action_views(actions@) =~= views(names@).take(i as int).map_values(|n: Seq<char>| action_model(ini, lv, n)));
        }
        assert(views(names@).take(names@.len() as int) =~= views(names@));
        let name = match get_localized(parser, "Desktop Entry", "Name", lang) {
            Some(n) => n,
            None => return Err(String::from_str("Name is required in desktop files")),
        };
        let exec = match ini_get(parser, "Desktop Entry", "Exec") {
            Some(e) => Some(Self::clean_exec(&e)),
            None => None,
        };
        let terminal = match ini_getbool(parser, "Desktop Entry", "Terminal") {
            Ok(Some(b)) => b,
            _ => false,
        };
        let entry = Entry {
            id: String::from_str(id),
            entry_type,
            name,
            generic_name: get_localized(parser, "Desktop Entry", "GenericName", lang),
            comment: get_localized(parser, "Desktop Entry", "Comment", lang),
            exec_line: exec,
            try_exec: ini_get(parser, "Desktop Entry", "TryExec"),
            path: ini_get(parser, "Desktop Entry", "Path"),
            url: ini_get(parser, "Desktop Entry", "URL"),
            categories: items_of(ini_get(parser, "Desktop Entry", "Categories")),
            terminal,
            icon: ini_get(parser, "Desktop Entry", "Icon"),
            only_show_in: items_of(ini_get(parser, "Desktop Entry", "OnlyShowIn")),
            actions,
            tags: config.tags_of(id),
        };
        assert(config.well_formed() ==> views(entry.tags@).no_duplicates()) by {
            if config.well_formed() && !config@.contains_key(id@) {
                assert(views(entry.tags@).len() == 0);
            }
        }
        Ok(Some(entry))
    }
}

/// The id of the entry a desktop file describes: its file name without the
/// `.desktop` extension; none for other files.
pub fn desktop_file_id(file_name: &str) -> (r: Option<String>)
    ensures
        match r {
            Some(id) => file_name@ == id@ + ".desktop"@,
            None => !(file_name@.len() >= 8 && file_name@.skip(file_name@.len() - 8) == ".desktop"@),
        },
{
    proof {
        reveal_strlit(".desktop");
    }
    let n = file_name.unicode_len();
    if n < 8 {
        return None;
    }
    let ext = file_name.substring_char(n - 8, n);
    if str_equal(ext, ".desktop") {
        let id = String::from_str(file_name.substring_char(0, n - 8));
        assert(file_name@ =~= id@ + ".desktop"@);
        Some(id)
    } else {
        assert(file_name@.skip(n - 8) =~= ext@);
        None
    }
}

/// The `applications` directory under a data directory, as `Path::join`
/// forms it: a separator is added unless the directory is empty or ends with one.
pub open spec fn applications_dir_spec(data_dir: Seq<char>) -> Seq<char> {
    if data_dir.len() == 0 || data_dir.last() == '/' {
        data_dir + "applications"@
    } else {
        data_dir + "/applications"@
    }
}

/// The `applications` directory under a data directory (see `applications_dir_spec`).
pub fn applications_dir(data_dir: &str) -> (r: String)
    ensures
        r@ == applications_dir_spec(data_dir@),
{
    let n = data_dir.unicode_len();
    let mut r = String::from_str(data_dir);
    if n == 0 || data_dir.get_char(n - 1) == '/' {
        r.append("applications");
    } else {
        r.append("/applications");
    }
    r
}

/// The directories searched for desktop files, before `~` is expanded.
pub open spec fn default_dirs() -> Seq<Seq<char>> {
    seq![
        "/usr/share/applications"@,
        "/usr/local/share/applications"@,
        "/var/lib/flatpak/exports/share/applications"@,
        "/var/lib/snapd/desktop/applications"@,
        "~/.local/share/flatpak/exports/share/applications"@,
        "~/.local/share/applications"@,
    ]
}

/// The directories to scan for desktop files, in order: the default ones,
/// then the `applications` directory of each `:`-separated data directory
/// of `XDG_DATA_DIRS`, when it is set.
pub fn desktop_dirs(xdg_data_dirs: Option<&str>) -> (r: Vec<String>)
    ensures
        views(r@).take(6) == seq![
            "/usr/share/applications"@,
            "/usr/local/share/applications"@,
            "/var/lib/flatpak/exports/share/applications"@,
            "/var/lib/snapd/desktop/applications"@,
            "~/.local/share/flatpak/exports/share/applications"@,
            "~/.local/share/applications"@,
        ],
        xdg_data_dirs is None ==> r@.len() == 6,
        views(r@) == default_dirs() + match xdg_data_dirs {
            Some(x) => split_on(x@, ':').map_values(|d: Seq<char>| applications_dir_spec(d)),
            None => Seq::empty(),
        },
{
    let mut r: Vec<String> = Vec::new();
    r.push(String::from_str("/usr/share/applications"));
    r.push(String::from_str("/usr/local/share/applications"));
    r.push(String::from_str("/var/lib/flatpak/exports/share/applications"));
    r.push(String::from_str("/var/lib/snapd/desktop/applications"));
    r.push(String::from_str("~/.local/share/flatpak/exports/share/applications"));
    r.push(String::from_str("~/.local/share/applications"));
    assert(views(r@) =~= default_dirs());
    match xdg_data_dirs {
        Some(x) => {
            let pieces = split_char(x, ':');
            let ghost ds = split_on(x@, ':');
            let ghost f = |d: Seq<char>| applications_dir_spec(d);
            let mut i: usize = 0;
            while i < pieces.len()
                invariant
                    i <= pieces@.len(),
                    views(pieces@) == ds,
                    f == (|d: Seq<char>| applications_dir_spec(d)),
                    views(r@) == default_dirs() + ds.take(i as int).map_values(f),
                decreases pieces@.len() - i,
            {
                let d = applications_dir(pieces[i].as_str());
                let ghost before = r@;
                r.push(d);
                proof {
                    crate::text::lemma_views_push(before, d);
                    assert(ds.take(i + 1) =~= ds.take(i as int).push(ds[i as int]));
                    assert(ds.take(i + 1).map_values(f) =~= ds.take(i as int).map_values(f).push(f(ds[i as int])));
                    assert(views(pieces@)[i as int] == pieces@[i as int]@);
                    assert(pieces@[i as int]@ == ds[i as int]);
                    assert(f(ds[i as int]) == d@);
                    assert(views(r@) =~= (default_dirs() + ds.take(i as int).map_values(f)).push(d@));
                    assert(default_dirs() + ds.take(i + 1).map_values(f) =~= (default_dirs() + ds.take(i as int).map_values(f)).push(d@));
                }
                i += 1;
            }
            assert(ds.take(pieces@.len() as int) =~= ds);
            assert(views(r@).take(6) =~= default_dirs());
            r
        },
        None => {
            assert(views(r@) =~= default_dirs() + Seq::<Seq<char>>::empty());
            assert(views(r@).take(6) =~= default_dirs());
            r
        },
    }
}

/// What parsing an ini text with `configparser`'s default settings holds
/// for each (section, key) query.
pub uninterp spec fn ini_text_values(text: Seq<char>) -> Map<(Seq<char>, Seq<char>), Seq<char>>;

/// Whether parsing an ini text with `configparser`'s default settings fails.
pub uninterp spec fn ini_text_fails(text: Seq<char>) -> bool;

/// Calls `Ini::new()` and `Ini::read(text)`. Claimed: the parse fails
/// exactly when `ini_text_fails` says so, and else the parser holds
/// `ini_text_values(text)`.
#[verifier::external_body]
fn ini_read(text: String) -> (r: Result<Ini, String>)
    ensures
        r is Err <==> ini_text_fails(text@),
        r matches Ok(ini) ==> ini_values(ini) == ini_text_values(text@),
{
    let mut ini = Ini::new();
    match ini.read(text) {
        Ok(_) => Ok(ini),
        Err(e) => Err(e),
    }
}

/// Reads the desktop file with text `text` as the entry `id`, with the
/// parser `parser` holding the file read before. The text replaces what the
/// parser holds when it parses; when it does not, the parse error is
/// returned first and the parser keeps the values of the file before, from
/// which the entry is then read, as a parser that failed to load does.
pub fn read_desktop_file(parser: &mut Ini, text: String, id: &str, lang: Option<&str>, config: &Config)
    -> (r: (Option<String>, Result<Option<Entry>, String>))
    ensures
        r.0 is Some <==> ini_text_fails(text@),
        !ini_text_fails(text@) ==> ini_values(*final(parser)) == ini_text_values(text@),
        ini_text_fails(text@) ==> *final(parser) == *old(parser),
        parse_result_view(r.1) == parse_entry(*final(parser), id@, lang_view(lang), tags_in(config@, id@)),
        r.1 matches Ok(Some(e)) ==> (config.well_formed() ==> e.well_formed()),
{
    let error = match ini_read(text) {
        Ok(ini) => {
            *parser = ini;
            None
        },
        Err(e) => Some(e),
    };
    let entry = Entry::from_parser(parser, id, lang, config);
    (error, entry)
}

} // verus!
