//! User-interface translations.
//!
//! Each locale is a table from keys to texts. A key is looked up in the
//! active locale, then in `en-US`, then in `zh-CN`; a key found nowhere is
//! shown as it is. Reading locale files and the settings file is the
//! caller's part; the tables and the choice of locale are kept here.

use crate::text::{
    chars_of, dec_digits, find, lemma_text_le_total, lemma_text_le_trans, lower, push_dec, push_str,
    range_find, str_eq, text_le, text_le_exec,
};
use vstd::prelude::*;

verus! {

broadcast use vstd::string::group_string_axioms;

/// What a locale file says of itself.
#[derive(Debug, Clone)]
pub struct LocaleMeta {
    /// The locale id, e.g. `zh-CN`.
    pub locale: String,
    /// The name shown in the language list, e.g. `简体中文`.
    pub name: String,
    pub author: String,
}

/// One locale: its metadata and its table of texts.
#[derive(Debug, Clone)]
pub struct LocaleData {
    pub meta: LocaleMeta,
    pub entries: Vec<(String, String)>,
}

/// The persisted settings: the chosen language, `auto` or a locale id.
#[derive(Debug, Clone, PartialEq, Eq)]
pub struct AppSettings {
    pub language: String,
}

/// The language setting used when none is saved.
pub fn default_language() -> (r: String)
    ensures
        r@ == "auto"@,
{
    String::from_str("auto")
}

impl AppSettings {
    /// Settings with the default language.
    pub fn with_default_language() -> (r: AppSettings)
        ensures
            r.language@ == "auto"@,
    {
        AppSettings { language: default_language() }
    }
}

// ---------------------------------------------------------------------------
// Tables
// ---------------------------------------------------------------------------

/// The text of the first entry whose key is `key`.
pub open spec fn entry_text(es: Seq<(String, String)>, key: Seq<char>, from: int) -> Option<
    Seq<char>,
>
    decreases es.len() - from,
{
    if from < 0 || from >= es.len() {
        None
    } else if es[from].0@ == key {
        Some(es[from].1@)
    } else {
        entry_text(es, key, from + 1)
    }
}

/// The position of the locale with id `id`.
pub open spec fn locale_pos(ls: Seq<LocaleData>, id: Seq<char>, from: int) -> Option<int>
    decreases ls.len() - from,
{
    if from < 0 || from >= ls.len() {
        None
    } else if ls[from].meta.locale@ == id {
        Some(from)
    } else {
        locale_pos(ls, id, from + 1)
    }
}

/// Whether a locale with id `id` is loaded.
pub open spec fn has_locale_id(ls: Seq<LocaleData>, id: Seq<char>) -> bool {
    locale_pos(ls, id, 0) is Some
}

/// The text of `key` in locale `id`, if both exist.
pub open spec fn text_in(ls: Seq<LocaleData>, id: Seq<char>, key: Seq<char>) -> Option<Seq<char>> {
    match locale_pos(ls, id, 0) {
        Some(i) => entry_text(ls[i].entries@, key, 0),
        None => None,
    }
}

/// The text shown for `key` while locale `active` is in use.
pub open spec fn translate(ls: Seq<LocaleData>, active: Seq<char>, key: Seq<char>) -> Seq<char> {
    if text_in(ls, active, key) is Some {
        text_in(ls, active, key).unwrap()
    } else if active != "en-US"@ && text_in(ls, "en-US"@, key) is Some {
        text_in(ls, "en-US"@, key).unwrap()
    } else if active != "zh-CN"@ && text_in(ls, "zh-CN"@, key) is Some {
        text_in(ls, "zh-CN"@, key).unwrap()
    } else {
        key
    }
}

/// The locales after loading `d`: it replaces a loaded locale with its id, or
/// is added at the end.
pub open spec fn with_locale(ls: Seq<LocaleData>, d: LocaleData) -> Seq<LocaleData> {
    match locale_pos(ls, d.meta.locale@, 0) {
        Some(i) => ls.update(i, d),
        None => ls.push(d),
    }
}

/// The locales after loading each of `ds` in turn.
pub open spec fn with_locales(ls: Seq<LocaleData>, ds: Seq<LocaleData>) -> Seq<LocaleData>
    decreases ds.len(),
{
    if ds.len() == 0 {
        ls
    } else {
        with_locales(with_locale(ls, ds[0]), ds.drop_first())
    }
}

/// The locale id for a system locale tag: `zh-CN` for tags starting with `zh`
/// (any case), `en-US` otherwise.
pub open spec fn system_locale_id(tag: Option<Seq<char>>) -> Seq<char> {
    if tag matches Some(t) && t.len() >= 2 && lower(t[0]) == 'z' && lower(t[1]) == 'h' {
        "zh-CN"@
    } else {
        "en-US"@
    }
}

/// The locale in use for a language setting, given the system's locale id:
/// `auto` follows the system, an unknown locale gives `en-US`.
pub open spec fn resolve_locale(ls: Seq<LocaleData>, selected: Seq<char>, system: Seq<char>) -> Seq<
    char,
> {
    if selected == "auto"@ {
        if has_locale_id(ls, system) {
            system
        } else {
            "en-US"@
        }
    } else if has_locale_id(ls, selected) {
        selected
    } else {
        "en-US"@
    }
}

/// A loaded locale that is chosen by name is the one used.
pub proof fn lemma_resolve_chosen(ls: Seq<LocaleData>, selected: Seq<char>, system: Seq<char>)
    requires
        selected != "auto"@,
        has_locale_id(ls, selected),
    ensures
        resolve_locale(ls, selected, system) == selected,
{
}

/// The locale in use is a loaded one, or `en-US`.
pub proof fn lemma_resolve_loaded_or_english(ls: Seq<LocaleData>, selected: Seq<char>, system: Seq<char>)
    ensures
        has_locale_id(ls, resolve_locale(ls, selected, system)) || resolve_locale(ls, selected, system)
            == "en-US"@,
{
}

/// A key that no locale in the fallback chain knows is shown as it is.
pub proof fn lemma_unknown_key_shown(ls: Seq<LocaleData>, active: Seq<char>, key: Seq<char>)
    requires
        text_in(ls, active, key) is None,
        text_in(ls, "en-US"@, key) is None,
        text_in(ls, "zh-CN"@, key) is None,
    ensures
        translate(ls, active, key) == key,
{
}

/// A key the locale in use knows is shown in that locale.
pub proof fn lemma_active_text_first(ls: Seq<LocaleData>, active: Seq<char>, key: Seq<char>)
    requires
        text_in(ls, active, key) is Some,
    ensures
        translate(ls, active, key) == text_in(ls, active, key).unwrap(),
{
}

// ---------------------------------------------------------------------------
// The language list
// ---------------------------------------------------------------------------

/// The (id, name) pair of each locale, as text.
pub open spec fn pair_views(ps: Seq<(String, String)>) -> Seq<(Seq<char>, Seq<char>)> {
    ps.map_values(|p: (String, String)| (p.0@, p.1@))
}

/// The (id, name) pairs of the loaded locales other than `zh-CN` and `en-US`, in order.
pub open spec fn other_locales(ls: Seq<LocaleData>) -> Seq<(Seq<char>, Seq<char>)>
    decreases ls.len(),
{
    if ls.len() == 0 {
        seq![]
    } else {
        let rest = other_locales(ls.drop_last());
        let d = ls.last();
        if d.meta.locale@ != "zh-CN"@ && d.meta.locale@ != "en-US"@ {
            rest.push((d.meta.locale@, d.meta.name@))
        } else {
            rest
        }
    }
}

/// The built-in locales that are loaded, `zh-CN` first, with their names.
pub open spec fn builtin_head(ls: Seq<LocaleData>) -> Seq<(Seq<char>, Seq<char>)> {
    let zh = match locale_pos(ls, "zh-CN"@, 0) {
        Some(i) => seq![("zh-CN"@, ls[i].meta.name@)],
        None => seq![],
    };
    let en = match locale_pos(ls, "en-US"@, 0) {
        Some(i) => seq![("en-US"@, ls[i].meta.name@)],
        None => seq![],
    };
    zh + en
}

/// Sorted by name.
pub open spec fn sorted_by_name(s: Seq<(Seq<char>, Seq<char>)>) -> bool {
    forall|i: int, j: int| 0 <= i < j < s.len() ==> text_le(#[trigger] s[i].1, #[trigger] s[j].1)
}

/// The language list: `zh-CN` and `en-US` first (when loaded), then the other
/// locales sorted by name.
pub open spec fn language_list_of(list: Seq<(Seq<char>, Seq<char>)>, ls: Seq<LocaleData>) -> bool {
    let head = builtin_head(ls);
    let rest = list.subrange(head.len() as int, list.len() as int);
    &&& head.len() <= list.len()
    &&& list.subrange(0, head.len() as int) == head
    &&& sorted_by_name(rest)
    &&& rest.to_multiset() == other_locales(ls).to_multiset()
}

fn copy_string(s: &String) -> (r: String)
    ensures
        r@ == s@,
{
    let mut t = String::new();
    push_str(&mut t, s.as_str());
    t
}

fn insert_by_name(v: &mut Vec<(String, String)>, id: String, name: String)
    requires
        sorted_by_name(pair_views(old(v)@)),
    ensures
        sorted_by_name(pair_views(final(v)@)),
        pair_views(final(v)@).to_multiset() == pair_views(old(v)@).to_multiset().insert(
            (id@, name@),
        ),
{
    let ghost s = pair_views(v@);
    let mut p: usize = 0;
    while p < v.len() && text_le_exec(v[p].1.as_str(), name.as_str())
        invariant
            s == pair_views(v@),
            p <= v@.len(),
            forall|q: int| 0 <= q < p ==> text_le(#[trigger] s[q].1, name@),
        decreases v@.len() - p,
    {
        p += 1;
    }
    let ghost x = (id@, name@);
    v.insert(p, (id, name));
    let ghost t = pair_views(v@);
    assert(t =~= s.insert(p as int, x));
    proof {
        vstd::seq_lib::to_multiset_insert(s, p as int, x);
        if p < s.len() {
            lemma_text_le_total(s[p as int].1, name@);
        }
        assert forall|i: int, j: int| 0 <= i < j < t.len() implies text_le(
            #[trigger] t[i].1,
            #[trigger] t[j].1,
        ) by {
            if j < p {
                assert(t[i] == s[i] && t[j] == s[j]);
            } else if j == p {
                assert(t[i] == s[i]);
            } else if i < p {
                assert(t[i] == s[i] && t[j] == s[j - 1]);
                assert(text_le(s[i].1, name@));
                lemma_text_le_total(s[p as int].1, name@);
                assert(text_le(name@, s[p as int].1));
                if j - 1 > p {
                    lemma_text_le_trans(name@, s[p as int].1, s[j - 1].1);
                }
                lemma_text_le_trans(s[i].1, name@, s[j - 1].1);
            } else if i == p {
                assert(t[j] == s[j - 1]);
                if j - 1 > p {
                    lemma_text_le_trans(name@, s[p as int].1, s[j - 1].1);
                }
            } else {
                assert(t[i] == s[i - 1] && t[j] == s[j - 1]);
            }
        }
    }
}

proof fn lemma_other_locales_push(ls: Seq<LocaleData>, d: LocaleData)
    ensures
        other_locales(ls.push(d)) == if d.meta.locale@ != "zh-CN"@ && d.meta.locale@ != "en-US"@ {
            other_locales(ls).push((d.meta.locale@, d.meta.name@))
        } else {
            other_locales(ls)
        },
{
    assert(ls.push(d).drop_last() =~= ls);
}

fn find_locale(ls: &Vec<LocaleData>, id: &str) -> (r: Option<usize>)
    ensures
        match r {
            Some(i) => locale_pos(ls@, id@, 0) == Some(i as int) && i < ls@.len(),
            None => locale_pos(ls@, id@, 0) is None,
        },
{
    let mut i: usize = 0;
    while i < ls.len()
        invariant
            i <= ls@.len(),
            locale_pos(ls@, id@, 0) == locale_pos(ls@, id@, i as int),
        decreases ls@.len() - i,
    {
        if str_eq(ls[i].meta.locale.as_str(), id) {
            return Some(i);
        }
        i += 1;
    }
    None
}

fn build_language_list(ls: &Vec<LocaleData>) -> (r: Vec<(String, String)>)
    ensures
        language_list_of(pair_views(r@), ls@),
{
    let mut list: Vec<(String, String)> = Vec::new();
    match find_locale(ls, "zh-CN") {
        Some(i) => list.push((String::from_str("zh-CN"), copy_string(&ls[i].meta.name))),
        None => {},
    }
    match find_locale(ls, "en-US") {
        Some(i) => list.push((String::from_str("en-US"), copy_string(&ls[i].meta.name))),
        None => {},
    }
    let ghost head = pair_views(list@);
    assert(head =~= builtin_head(ls@));
    let mut others: Vec<(String, String)> = Vec::new();
    let mut k: usize = 0;
    assert(ls@.take(0) =~= Seq::<LocaleData>::empty());
    assert(pair_views(others@) =~= Seq::<(Seq<char>, Seq<char>)>::empty());
    while k < ls.len()
        invariant
            k <= ls@.len(),
            sorted_by_name(pair_views(others@)),
            pair_views(others@).to_multiset() == other_locales(ls@.take(k as int)).to_multiset(),
        decreases ls@.len() - k,
    {
        let ghost d = ls@[k as int];
        proof {
            assert(ls@.take(k + 1) =~= ls@.take(k as int).push(d));
            lemma_other_locales_push(ls@.take(k as int), d);
        }
        let id = &ls[k].meta.locale;
        if !str_eq(id.as_str(), "zh-CN") && !str_eq(id.as_str(), "en-US") {
            insert_by_name(&mut others, copy_string(id), copy_string(&ls[k].meta.name));
            proof {
                vstd::seq_lib::to_multiset_build(other_locales(ls@.take(k as int)), (
                    d.meta.locale@,
                    d.meta.name@,
                ));
            }
        }
        k += 1;
    }
    assert(ls@.take(ls@.len() as int) =~= ls@);
    let ghost o = pair_views(others@);
    let mut j: usize = 0;
    let n = others.len();
    let mut rest: Vec<(String, String)> = others;
    let ghost pre = pair_views(list@);
    while rest.len() > 0
        invariant
            pre == head,
            head == builtin_head(ls@),
            pair_views(list@) == head + o.take(j as int),
            pair_views(rest@) == o.skip(j as int),
            o.len() == n,
            j <= n,
            j + rest@.len() == n,
        decreases rest@.len(),
    {
        let ghost before = rest@;
        let ghost lbefore = list@;
        let p = rest.remove(0);
        assert(rest@ == before.remove(0));
        assert(pair_views(before)[0] == o[j as int]);
        assert forall|q: int| 0 <= q < rest@.len() implies #[trigger] pair_views(rest@)[q] == o.skip(
            j + 1,
        )[q] by {
            assert(rest@[q] == before[q + 1]);
            assert(pair_views(before)[q + 1] == o.skip(j as int)[q + 1]);
        }
        assert(pair_views(rest@) =~= o.skip(j + 1));
        list.push(p);
        assert(list@ == lbefore.push(p));
        assert(pair_views(list@) =~= pair_views(lbefore).push((p.0@, p.1@)));
        assert(pair_views(list@) =~= head + o.take(j + 1));
        j += 1;
    }
    assert(o.take(n as int) =~= o);
    assert(pair_views(list@).subrange(0, head.len() as int) =~= head);
    assert(pair_views(list@).subrange(head.len() as int, pair_views(list@).len() as int) =~= o);
    list
}

// ---------------------------------------------------------------------------
// Placeholders
// ---------------------------------------------------------------------------

/// `str::replace`: every non-overlapping occurrence of `p`, from the left,
/// replaced by `r`.
pub open spec fn replace_all(s: Seq<char>, p: Seq<char>, r: Seq<char>) -> Seq<char>
    decreases s.len(),
{
    if p.len() == 0 {
        s
    } else {
        match find(s, p) {
            Some(i) => if 0 <= i && i + p.len() <= s.len() {
                s.subrange(0, i) + r + replace_all(s.subrange(i + p.len(), s.len() as int), p, r)
            } else {
                s
            },
            None => s,
        }
    }
}

/// The placeholder of argument `i`: `{i}`.
pub open spec fn placeholder(i: nat) -> Seq<char> {
    "{"@ + dec_digits(i) + "}"@
}

/// `s` with the placeholders of arguments `i..` replaced in turn.
pub open spec fn fill_from(s: Seq<char>, args: Seq<&str>, i: int) -> Seq<char>
    decreases args.len() - i,
{
    if i < 0 || i >= args.len() {
        s
    } else {
        fill_from(replace_all(s, placeholder(i as nat), args[i]@), args, i + 1)
    }
}

fn replace_text(s: &String, p: &str, r: &str) -> (out: String)
    requires
        p@.len() > 0,
    ensures
        out@ == replace_all(s@, p@, r@),
{
    let v = chars_of(s.as_str());
    let n = v.len();
    let m = p.unicode_len();
    let mut out = String::new();
    let mut pos: usize = 0;
    assert(v@.subrange(0, n as int) =~= v@);
    while pos < n
        invariant
            v@ == s@,
            n == v@.len(),
            m == p@.len(),
            m > 0,
            pos <= n,
            replace_all(s@, p@, r@) == out@ + replace_all(v@.subrange(pos as int, n as int), p@, r@),
        decreases n - pos,
    {
        let ghost rest = v@.subrange(pos as int, n as int);
        match range_find(&v, pos, n, p) {
            Some(i) => {
                proof {
                    crate::text::lemma_find_from_occurs(rest, p@, 0);
                }
                assert(i + m <= n - pos);
                let ghost before = out@;
                let seg = crate::text::string_from_range(&v, pos, pos + i);
                push_str(&mut out, seg.as_str());
                push_str(&mut out, r);
                assert(rest.subrange(0, i as int) =~= v@.subrange(pos as int, pos + i));
                assert(rest.subrange(i + m, rest.len() as int) =~= v@.subrange(
                    pos + i + m,
                    n as int,
                ));
                assert(out@ + replace_all(v@.subrange(pos + i + m, n as int), p@, r@) =~= before
                    + replace_all(rest, p@, r@));
                pos = pos + i + m;
            },
            None => {
                let seg = crate::text::string_from_range(&v, pos, n);
                push_str(&mut out, seg.as_str());
                assert(out@ =~= out@ + replace_all(v@.subrange(n as int, n as int), p@, r@));
                pos = n;
            },
        }
    }
    assert(v@.subrange(n as int, n as int) =~= Seq::<char>::empty());
    assert(replace_all(Seq::<char>::empty(), p@, r@) =~= Seq::<char>::empty());
    out
}

// ---------------------------------------------------------------------------
// The manager
// ---------------------------------------------------------------------------

/// The locale tag of the running system.
///
/// Calls `sys_locale::get_locale`, which reads the environment; nothing is
/// stated of what it returns.
#[verifier::external_body]
pub(crate) fn system_locale_tag() -> Option<String> {
    sys_locale::get_locale()
}

/// The locale id for a system locale tag (see `system_locale_id`).
pub fn locale_for_tag(tag: Option<&str>) -> (r: String)
    ensures
        r@ == system_locale_id(
            match tag {
                Some(t) => Some(t@),
                None => None,
            },
        ),
{
    match tag {
        Some(t) => {
            let v = chars_of(t);
            if v.len() >= 2 && crate::text::char_lower(v[0]) == 'z' && crate::text::char_lower(v[1])
                == 'h' {
                String::from_str("zh-CN")
            } else {
                String::from_str("en-US")
            }
        },
        None => String::from_str("en-US"),
    }
}

/// The locale id of the running system: `zh-CN` or `en-US`.
pub fn detect_system_locale() -> (r: String)
    ensures
        r@ == "zh-CN"@ || r@ == "en-US"@,
{
    let tag = system_locale_tag();
    match &tag {
        Some(t) => locale_for_tag(Some(t.as_str())),
        None => locale_for_tag(None),
    }
}

/// The locale in use for a language setting, given the system's locale id.
pub fn resolve_active_locale(ls: &Vec<LocaleData>, selected: &str, system: &str) -> (r: String)
    ensures
        r@ == resolve_locale(ls@, selected@, system@),
{
    if str_eq(selected, "auto") {
        if find_locale(ls, system).is_some() {
            String::from_str(system)
        } else {
            String::from_str("en-US")
        }
    } else if find_locale(ls, selected).is_some() {
        String::from_str(selected)
    } else {
        String::from_str("en-US")
    }
}

fn add_locales(ls: &mut Vec<LocaleData>, ds: Vec<LocaleData>)
    ensures
        final(ls)@ == with_locales(old(ls)@, ds@),
{
    let mut rest = ds;
    let ghost all = ds@;
    while rest.len() > 0
        invariant
            with_locales(old(ls)@, all) == with_locales(ls@, rest@),
        decreases rest@.len(),
    {
        let ghost before = rest@;
        let d = rest.remove(0);
        assert(rest@ =~= before.drop_first());
        match find_locale(ls, d.meta.locale.as_str()) {
            Some(i) => {
                ls.set(i, d);
            },
            None => {
                ls.push(d);
            },
        }
    }
}

/// The loaded locales, the language list, the language setting and the
/// locale in use.
pub struct I18nManager {
    locales: Vec<LocaleData>,
    available_locales: Vec<(String, String)>,
    selected_language: String,
    active_locale: String,
}

impl I18nManager {
    /// The language list always follows the loaded locales.
    #[verifier::type_invariant]
    spec fn list_follows_locales(self) -> bool {
        language_list_of(pair_views(self.available_locales@), self.locales@)
    }

    /// The loaded locales.
    pub closed spec fn locales(self) -> Seq<LocaleData> {
        self.locales@
    }

    /// The language setting.
    pub closed spec fn selected(self) -> Seq<char> {
        self.selected_language@
    }

    /// The locale in use.
    pub closed spec fn active(self) -> Seq<char> {
        self.active_locale@
    }

    /// The language list, as (id, name) texts.
    pub closed spec fn language_list(self) -> Seq<(Seq<char>, Seq<char>)> {
        pair_views(self.available_locales@)
    }

    /// Whether `locale` is what the language setting resolves to: the
    /// resolution with the system's locale, whichever of `zh-CN` and `en-US`
    /// the system gave.
    pub open spec fn resolves_to(ls: Seq<LocaleData>, selected: Seq<char>, locale: Seq<char>) -> bool {
        locale == resolve_locale(ls, selected, "zh-CN"@) || locale == resolve_locale(
            ls,
            selected,
            "en-US"@,
        )
    }

    /// A manager holding `locales`, loaded in order (a later locale replaces
    /// an earlier one with the same id), with the language of `settings`.
    pub fn new(locales: Vec<LocaleData>, settings: AppSettings) -> (r: Self)
        ensures
            r.locales() == with_locales(Seq::empty(), locales@),
            r.selected() == settings.language@,
            Self::resolves_to(r.locales(), r.selected(), r.active()),
            language_list_of(r.language_list(), r.locales()),
    {
        let mut ls: Vec<LocaleData> = Vec::new();
        add_locales(&mut ls, locales);
        let list = build_language_list(&ls);
        let system = detect_system_locale();
        let active = resolve_active_locale(&ls, settings.language.as_str(), system.as_str());
        I18nManager {
            locales: ls,
            available_locales: list,
            selected_language: settings.language,
            active_locale: active,
        }
    }

    /// Loads more locales (from locale folders) and rebuilds the language
    /// list and the locale in use.
    pub fn reload_locales(&mut self, external: Vec<LocaleData>)
        ensures
            final(self).locales() == with_locales(old(self).locales(), external@),
            final(self).selected() == old(self).selected(),
            Self::resolves_to(final(self).locales(), final(self).selected(), final(self).active()),
            language_list_of(final(self).language_list(), final(self).locales()),
    {
        assert(builtin_head(Seq::<LocaleData>::empty()) =~= Seq::<(Seq<char>, Seq<char>)>::empty());
        assert(pair_views(Seq::<(String, String)>::empty()) =~= Seq::<(Seq<char>, Seq<char>)>::empty());
        let e1: Vec<LocaleData> = Vec::new();
        let e2: Vec<(String, String)> = Vec::new();
        assert(pair_views(e2@).subrange(0, 0) =~= other_locales(e1@));
        assert(language_list_of(pair_views(e2@), e1@));
        let mut prev = I18nManager {
            locales: e1,
            available_locales: e2,
            selected_language: String::new(),
            active_locale: String::new(),
        };
        std::mem::swap(self, &mut prev);
        let I18nManager { locales: mut ls, selected_language: selected, .. } = prev;
        add_locales(&mut ls, external);
        let list = build_language_list(&ls);
        let system = detect_system_locale();
        let active = resolve_active_locale(&ls, selected.as_str(), system.as_str());
        *self = I18nManager {
            locales: ls,
            available_locales: list,
            selected_language: selected,
            active_locale: active,
        };
    }

    /// The text of `key`: from the locale in use, else from `en-US`, else from
    /// `zh-CN`, else the key itself.
    pub fn t<'a>(&'a self, key: &'a str) -> (r: &'a str)
        ensures
            r@ == translate(self.locales(), self.active(), key@),
    {
        match self.text_of(self.active_locale.as_str(), key) {
            Some(v) => return v,
            None => {},
        }
        if !str_eq(self.active_locale.as_str(), "en-US") {
            match self.text_of("en-US", key) {
                Some(v) => return v,
                None => {},
            }
        }
        if !str_eq(self.active_locale.as_str(), "zh-CN") {
            match self.text_of("zh-CN", key) {
                Some(v) => return v,
                None => {},
            }
        }
        key
    }

    fn text_of<'a>(&'a self, id: &str, key: &str) -> (r: Option<&'a str>)
        ensures
            match r {
                Some(v) => text_in(self.locales(), id@, key@) == Some(v@),
                None => text_in(self.locales(), id@, key@) is None,
            },
    {
        match find_locale(&self.locales, id) {
            Some(i) => {
                let es = &self.locales[i].entries;
                let mut j: usize = 0;
                while j < es.len()
                    invariant
                        i < self.locales@.len(),
                        locale_pos(self.locales@, id@, 0) == Some(i as int),
                        es@ == self.locales@[i as int].entries@,
                        j <= es@.len(),
                        entry_text(es@, key@, 0) == entry_text(es@, key@, j as int),
                    decreases es@.len() - j,
                {
                    if str_eq(es[j].0.as_str(), key) {
                        return Some(es[j].1.as_str());
                    }
                    j += 1;
                }
                None
            },
            None => None,
        }
    }

    /// The text of `key` with each placeholder `{i}` replaced by `args[i]`,
    /// for `i` from 0 up, one argument after the other.
    pub fn t_fmt(&self, key: &str, args: &[&str]) -> (r: String)
        ensures
            r@ == fill_from(translate(self.locales(), self.active(), key@), args@, 0),
    {
        let mut s = copy_str(self.t(key));
        let mut i: usize = 0;
        while i < args.len()
            invariant
                i <= args@.len(),
                fill_from(translate(self.locales(), self.active(), key@), args@, 0) == fill_from(
                    s@,
                    args@,
                    i as int,
                ),
            decreases args@.len() - i,
        {
            let mut ph = String::new();
            push_str(&mut ph, "{");
            push_dec(&mut ph, i as u64);
            push_str(&mut ph, "}");
            assert(ph@ == placeholder(i as nat));
            s = replace_text(&s, ph.as_str(), args[i]);
            i += 1;
        }
        s
    }

    /// The language setting: `auto` or a locale id.
    pub fn selected_language(&self) -> (r: &str)
        ensures
            r@ == self.selected(),
    {
        self.selected_language.as_str()
    }

    /// The id of the locale in use.
    pub fn active_locale(&self) -> (r: &str)
        ensures
            r@ == self.active(),
    {
        self.active_locale.as_str()
    }

    /// The language list: (id, name) pairs, `zh-CN` and `en-US` first, then
    /// the other locales sorted by name.
    pub fn available_locales(&self) -> (r: &[(String, String)])
        ensures
            pair_views(r@) == self.language_list(),
            language_list_of(pair_views(r@), self.locales()),
    {
        proof {
            use_type_invariant(self);
        }
        self.available_locales.as_slice()
    }

    /// Whether a locale with id `id` is loaded.
    pub fn has_locale(&self, id: &str) -> (r: bool)
        ensures
            r == has_locale_id(self.locales(), id@),
    {
        find_locale(&self.locales, id).is_some()
    }

    /// The name of the locale in use, e.g. `简体中文`; its id when it is not loaded.
    pub fn resolved_locale_name(&self) -> (r: &str)
        ensures
            r@ == match locale_pos(self.locales(), self.active(), 0) {
                Some(i) => self.locales()[i].meta.name@,
                None => self.active(),
            },
    {
        match find_locale(&self.locales, self.active_locale.as_str()) {
            Some(i) => self.locales[i].meta.name.as_str(),
            None => self.active_locale.as_str(),
        }
    }

    /// Changes the language setting and the locale in use at once; the caller
    /// saves `settings()` afterwards.
    pub fn set_language(&mut self, lang: String)
        ensures
            final(self).locales() == old(self).locales(),
            final(self).selected() == lang@,
            Self::resolves_to(final(self).locales(), final(self).selected(), final(self).active()),
            final(self).language_list() == old(self).language_list(),
    {
        proof {
            use_type_invariant(&*self);
        }
        let system = detect_system_locale();
        let active = resolve_active_locale(&self.locales, lang.as_str(), system.as_str());
        self.selected_language = lang;
        self.active_locale = active;
    }

    /// The settings to save: the language setting.
    pub fn settings(&self) -> (r: AppSettings)
        ensures
            r.language@ == self.selected(),
    {
        AppSettings { language: copy_string(&self.selected_language) }
    }
}

fn copy_str(s: &str) -> (r: String)
    ensures
        r@ == s@,
{
    let mut t = String::new();
    push_str(&mut t, s);
    t
}

} // verus!
