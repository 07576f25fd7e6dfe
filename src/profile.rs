//! Named configuration profiles and the state machine that moves between them.

use crate::error::Error;
use crate::patch::{patch_outcome, patch_spec, update_text_mode, ConfigValue, Syntax};
use crate::text::{opt_int, opt_view, str_eq};
use vstd::prelude::*;
use vstd::string::StringExecFns;

verus! {

/// One assignment: the last segment of `config_path` is the key written.
#[derive(Debug, Clone)]
pub struct ConfigEntry {
    pub config_path: Vec<String>,
    pub value: ConfigValue,
}

/// The assignments of one profile, per target file.
#[derive(Debug, Clone)]
pub struct Profile {
    /// Entries for the editor's JSON settings.
    pub zed_config: Vec<ConfigEntry>,
    /// Entries for the terminal's TOML settings.
    pub alacritty_config: Vec<ConfigEntry>,
}

/// A profile under its name.
#[derive(Debug, Clone)]
pub struct NamedProfile {
    pub name: String,
    pub profile: Profile,
}

/// The profile store: the cycle order and the profiles by name, each name
/// standing once (`profiles_wf`).
#[derive(Debug, Clone)]
pub struct ProfilesConfig {
    pub order: Vec<String>,
    pub profiles: Vec<NamedProfile>,
}

/// The name of the active profile, as persisted.
#[derive(Debug, Clone)]
pub struct CurrentProfile {
    pub current_profile: String,
}

pub struct EntryModel {
    pub path: Seq<Seq<char>>,
    pub value: ConfigValue,
}

impl View for ConfigEntry {
    type V = EntryModel;

    open spec fn view(&self) -> EntryModel {
        EntryModel { path: self.config_path@.map_values(|s: String| s@), value: self.value }
    }
}

pub open spec fn entry_models(es: Seq<ConfigEntry>) -> Seq<EntryModel> {
    es.map_values(|e: ConfigEntry| e@)
}

pub open spec fn names_of(v: Seq<String>) -> Seq<Seq<char>> {
    v.map_values(|s: String| s@)
}

pub open spec fn profile_names(ps: Seq<NamedProfile>) -> Seq<Seq<char>> {
    ps.map_values(|p: NamedProfile| p.name@)
}

/// The store is a map by name: no name stands twice among the profiles.
pub open spec fn profiles_wf(ps: Seq<NamedProfile>) -> bool {
    forall|a: int, b: int|
        0 <= a < b < ps.len() ==> (#[trigger] ps[a]).name@ != (#[trigger] ps[b]).name@
}

/// The profile an explicit request for the active one falls back to.
pub open spec fn default_name() -> Seq<char> {
    seq!['d', 'e', 'f', 'a', 'u', 'l', 't']
}

/// First index at or after `i` of `x` in `s`.
pub open spec fn index_from(s: Seq<Seq<char>>, x: Seq<char>, i: int) -> Option<int>
    decreases s.len() - i,
{
    if i < 0 || i >= s.len() {
        None
    } else if s[i] == x {
        Some(i)
    } else {
        index_from(s, x, i + 1)
    }
}

/// The name after `current` in `order`, wrapping round; the first name where
/// `current` is not in `order`.
pub open spec fn cyclic_next(order: Seq<Seq<char>>, current: Seq<char>) -> Seq<char> {
    match index_from(order, current, 0) {
        Some(i) => order[(i + 1) % (order.len() as int)],
        None => order[0],
    }
}

/// The active name: the persisted one, else the first of `order`.
pub open spec fn current_or_first(order: Seq<Seq<char>>, current: Option<Seq<char>>) -> Seq<char> {
    match current {
        Some(c) => c,
        None => order[0],
    }
}

/// Where the toggle goes: an explicit request for the active profile goes to
/// `default`, another request to the profile asked for, no request to the
/// next name in `order`.
pub open spec fn next_spec(
    order: Seq<Seq<char>>,
    current: Option<Seq<char>>,
    target: Option<Seq<char>>,
) -> Seq<char> {
    let cur = current_or_first(order, current);
    match target {
        Some(t) => if t == cur {
            default_name()
        } else {
            t
        },
        None => cyclic_next(order, cur),
    }
}

proof fn lemma_index_from_range(s: Seq<Seq<char>>, x: Seq<char>, i: int)
    requires
        0 <= i,
    ensures
        index_from(s, x, i) is Some ==> i <= index_from(s, x, i)->0 < s.len() && s[index_from(
            s,
            x,
            i,
        )->0] == x,
    decreases s.len() - i,
{
    if i < s.len() && s[i] != x {
        lemma_index_from_range(s, x, i + 1);
    }
}

fn index_of(v: &Vec<String>, x: &str) -> (r: Option<usize>)
    ensures
        opt_int(r) == index_from(names_of(v@), x@, 0),
{
    let mut i: usize = 0;
    while i < v.len()
        invariant
            i <= v.len(),
            index_from(names_of(v@), x@, 0) == index_from(names_of(v@), x@, i as int),
        decreases v.len() - i,
    {
        if str_eq(v[i].as_str(), x) {
            return Some(i);
        }
        i += 1;
    }
    None
}

/// Index of the profile named `x`; in a well-formed store it is the only
/// one of that name.
pub fn find_profile(ps: &Vec<NamedProfile>, x: &str) -> (r: Option<usize>)
    ensures
        opt_int(r) == index_from(profile_names(ps@), x@, 0),
        match r {
            Some(k) => k < ps@.len() && ps@[k as int].name@ == x@ && (profiles_wf(ps@) ==> forall|j: int|
                0 <= j < ps@.len() && #[trigger] ps@[j].name@ == x@ ==> j == k),
            None => forall|j: int| 0 <= j < ps@.len() ==> #[trigger] ps@[j].name@ != x@,
        },
{
    proof {
        lemma_index_from_range(profile_names(ps@), x@, 0);
    }
    let mut i: usize = 0;
    while i < ps.len()
        invariant
            i <= ps.len(),
            index_from(profile_names(ps@), x@, 0) == index_from(
                profile_names(ps@),
                x@,
                i as int,
            ),
            forall|j: int| 0 <= j < i ==> #[trigger] ps@[j].name@ != x@,
        decreases ps.len() - i,
    {
        if str_eq(ps[i].name.as_str(), x) {
            assert(profile_names(ps@)[i as int] == x@);
            return Some(i);
        }
        assert(profile_names(ps@)[i as int] != x@);
        i += 1;
    }
    None
}

/// The name of the profile to switch to. Fails when `order` is empty, or
/// when the requested profile is not defined.
pub fn next_profile_name(config: &ProfilesConfig, current: Option<&str>, target: Option<&str>) -> (r:
    Result<String, Error>)
    ensures
        config.order@.len() == 0 ==> r == Err::<String, Error>(Error::NoProfiles),
        config.order@.len() > 0 ==> match target {
            Some(t) if !profile_names(config.profiles@).contains(t@) => match r {
                Err(Error::ProfileNotFound { name }) => name@ == t@,
                _ => false,
            },
            _ => r is Ok && r->Ok_0@ == next_spec(
                names_of(config.order@),
                opt_view(current),
                opt_view(target),
            ),
        },
{
    let n = config.order.len();
    if n == 0 {
        return Err(Error::NoProfiles);
    }
    let cur: &str = match current {
        Some(c) => c,
        None => config.order[0].as_str(),
    };
    match target {
        Some(t) => {
            proof {
                lemma_index_from_range(profile_names(config.profiles@), t@, 0);
            }
            match find_profile(&config.profiles, t) {
                None => {
                    assert forall|k: int| 0 <= k < config.profiles@.len() implies profile_names(
                        config.profiles@,
                    )[k] != t@ by {
                        lemma_index_absent(profile_names(config.profiles@), t@, 0, k);
                    }
                    return Err(Error::ProfileNotFound { name: String::from_str(t) });
                },
                Some(k) => {
                    assert(profile_names(config.profiles@)[k as int] == t@);
                },
            }
            if str_eq(t, cur) {
                let d = String::from_str("default");
                proof {
                    reveal_strlit("default");
                    assert(d@ =~= default_name());
                }
                Ok(d)
            } else {
                Ok(String::from_str(t))
            }
        },
        None => {
            proof {
                lemma_index_from_range(names_of(config.order@), cur@, 0);
            }
            match index_of(&config.order, cur) {
                Some(i) => {
                    let j = if i + 1 == n {
                        0
                    } else {
                        i + 1
                    };
                    assert(j as int == (i + 1) % (n as int)) by {
                        if i + 1 == n {
                            vstd::arithmetic::div_mod::lemma_mod_self_0(n as int);
                        } else {
                            vstd::arithmetic::div_mod::lemma_small_mod((i + 1) as nat, n as nat);
                        }
                    }
                    Ok(config.order[j].clone())
                },
                None => Ok(config.order[0].clone()),
            }
        },
    }
}

proof fn lemma_index_absent(s: Seq<Seq<char>>, x: Seq<char>, i: int, k: int)
    requires
        0 <= i <= k < s.len(),
        index_from(s, x, i) is None,
    ensures
        s[k] != x,
    decreases k - i,
{
    if i < k {
        lemma_index_absent(s, x, i + 1, k);
    }
}


/// One entry applied to `t`: its last path segment patched to its value.
pub open spec fn entry_step(t: Seq<char>, e: EntryModel, syntax: Syntax) -> Option<Seq<char>> {
    if e.path.len() == 0 {
        None
    } else {
        patch_spec(t, e.path.last(), syntax, e.value)
    }
}

/// The entries applied in order, each to the text the previous one left.
pub open spec fn apply_chain(s: Seq<char>, es: Seq<EntryModel>, syntax: Syntax) -> Option<Seq<char>>
    decreases es.len(),
{
    if es.len() == 0 {
        Some(s)
    } else {
        match apply_chain(s, es.drop_last(), syntax) {
            Some(t) => entry_step(t, es.last(), syntax),
            None => None,
        }
    }
}

/// `err` is the failure of applying `e` to `t`.
pub open spec fn entry_fails_with(t: Seq<char>, e: EntryModel, syntax: Syntax, err: Error) -> bool {
    if e.path.len() == 0 {
        err == Error::EmptyPath
    } else {
        patch_outcome(t, e.path.last(), syntax, e.value, Err(err))
    }
}

/// The outcome of applying `es` to `s`: the patched text, or the failure of
/// the first entry that cannot be applied.
pub open spec fn apply_outcome(
    s: Seq<char>,
    es: Seq<EntryModel>,
    syntax: Syntax,
    r: Result<String, Error>,
) -> bool {
    match r {
        Ok(out) => apply_chain(s, es, syntax) == Some(out@),
        Err(err) => apply_chain(s, es, syntax) is None && exists|k: int|
            0 <= k < es.len() && #[trigger] apply_chain(s, es.subrange(0, k), syntax) is Some
                && entry_fails_with(apply_chain(s, es.subrange(0, k), syntax)->0, es[k], syntax, err),
    }
}

proof fn lemma_chain_fails_on(s: Seq<char>, es: Seq<EntryModel>, syntax: Syntax, k: int)
    requires
        0 <= k <= es.len(),
        apply_chain(s, es.subrange(0, k), syntax) is None,
    ensures
        apply_chain(s, es, syntax) is None,
    decreases es.len() - k,
{
    if k < es.len() {
        assert(es.subrange(0, k + 1).drop_last() =~= es.subrange(0, k));
        lemma_chain_fails_on(s, es, syntax, k + 1);
    } else {
        assert(es.subrange(0, k) =~= es);
    }
}

/// Applies the entries in order to `content`, stopping at the first failure.
pub fn apply_entries(content: &str, entries: &Vec<ConfigEntry>, syntax: Syntax) -> (r: Result<
    String,
    Error,
>)
    ensures
        apply_outcome(content@, entry_models(entries@), syntax, r),
{
    let ghost es = entry_models(entries@);
    let mut cur = String::from_str(content);
    let mut i: usize = 0;
    assert(es.subrange(0, 0) =~= Seq::<EntryModel>::empty());
    while i < entries.len()
        invariant
            i <= entries.len(),
            es == entry_models(entries@),
            apply_chain(content@, es.subrange(0, i as int), syntax) == Some(cur@),
        decreases entries.len() - i,
    {
        let e = &entries[i];
        assert(es.subrange(0, i + 1).drop_last() =~= es.subrange(0, i as int));
        assert(es[i as int] == e@);
        let n = e.config_path.len();
        if n == 0 {
            proof {
                lemma_chain_fails_on(content@, es, syntax, i + 1);
            }
            return Err(Error::EmptyPath);
        }
        assert(e@.path.last() == e.config_path@[n - 1]@);
        match update_text_mode(cur.as_str(), e.config_path[n - 1].as_str(), &e.value, syntax) {
            Ok(next) => {
                cur = next;
            },
            Err(err) => {
                proof {
                    lemma_chain_fails_on(content@, es, syntax, i + 1);
                }
                return Err(err);
            },
        }
        i += 1;
    }
    assert(es.subrange(0, entries@.len() as int) =~= es);
    Ok(cur)
}

/// The result of a toggle: the profile switched to, its index in the store,
/// the editor settings with its editor entries applied, and the terminal
/// settings with its terminal entries applied (none where the profile has no
/// terminal entries, and the terminal file is left alone).
#[derive(Debug, Clone)]
pub struct ProfileSwitch {
    pub name: String,
    pub profile_index: usize,
    pub settings: String,
    pub terminal: Option<String>,
}

/// The editor and terminal texts that switching to `p` gives, or the first
/// failure: the editor entries first, then the terminal entries.
pub open spec fn switch_outcome(
    p: Profile,
    settings: Seq<char>,
    terminal: Option<Seq<char>>,
    r: Result<(String, Option<String>), Error>,
) -> bool {
    let es = entry_models(p.zed_config@);
    let ts = entry_models(p.alacritty_config@);
    match apply_chain(settings, es, Syntax::Json) {
        None => match r {
            Err(err) => apply_outcome(settings, es, Syntax::Json, Err(err)),
            Ok(_) => false,
        },
        Some(new_settings) => if ts.len() == 0 {
            match r {
                Ok((s, t)) => s@ == new_settings && t is None,
                Err(_) => false,
            }
        } else {
            match terminal {
                None => r == Err::<(String, Option<String>), Error>(Error::TerminalConfigMissing),
                Some(term) => match r {
                    Ok((s, Some(t))) => s@ == new_settings && apply_outcome(
                        term,
                        ts,
                        Syntax::Toml,
                        Ok(t),
                    ),
                    Ok((_, None)) => false,
                    Err(err) => apply_chain(term, ts, Syntax::Toml) is None && apply_outcome(
                        term,
                        ts,
                        Syntax::Toml,
                        Err(err),
                    ),
                },
            }
        },
    }
}

/// Applies a profile's entries to the editor text and, where it has terminal
/// entries, to the terminal text; nothing is returned unless every entry
/// applies.
pub fn apply_profile(p: &Profile, settings: &str, terminal: Option<&str>) -> (r: Result<
    (String, Option<String>),
    Error,
>)
    ensures
        switch_outcome(*p, settings@, opt_view(terminal), r),
{
    let new_settings = match apply_entries(settings, &p.zed_config, Syntax::Json) {
        Ok(s) => s,
        Err(e) => return Err(e),
    };
    if p.alacritty_config.len() == 0 {
        return Ok((new_settings, None));
    }
    let Some(term) = terminal else { return Err(Error::TerminalConfigMissing) };
    match apply_entries(term, &p.alacritty_config, Syntax::Toml) {
        Ok(t) => Ok((new_settings, Some(t))),
        Err(e) => Err(e),
    }
}

/// Decides the profile to switch to and applies its entries to the editor
/// settings and, where it has terminal entries, to the terminal settings.
/// Fails, with nothing to write, on the first entry that cannot be applied.
/// In a store whose names are unique (`profiles_wf`), the profile used is the
/// one of that name.
pub fn toggle_profile(
    config: &ProfilesConfig,
    current: Option<&str>,
    target: Option<&str>,
    settings: &str,
    terminal: Option<&str>,
) -> (r: Result<ProfileSwitch, Error>)
    ensures
        config.order@.len() == 0 ==> r == Err::<ProfileSwitch, Error>(Error::NoProfiles),
        config.order@.len() > 0 ==> {
            let names = profile_names(config.profiles@);
            let next = next_spec(names_of(config.order@), opt_view(current), opt_view(target));
            match target {
                Some(t) if !names.contains(t@) => match r {
                    Err(Error::ProfileNotFound { name }) => name@ == t@,
                    _ => false,
                },
                _ => match index_from(names, next, 0) {
                    None => match r {
                        Err(Error::ProfileNotFound { name }) => name@ == next,
                        _ => false,
                    },
                    Some(k) => {
                        let p = config.profiles@[k].profile;
                        match r {
                            Ok(sw) => sw.name@ == next && sw.profile_index == k && switch_outcome(
                                p,
                                settings@,
                                opt_view(terminal),
                                Ok((sw.settings, sw.terminal)),
                            ),
                            Err(err) => switch_outcome(p, settings@, opt_view(terminal), Err(err)),
                        }
                    },
                },
            }
        },
{
    let name = match next_profile_name(config, current, target) {
        Ok(name) => name,
        Err(e) => return Err(e),
    };
    proof {
        lemma_index_from_range(profile_names(config.profiles@), name@, 0);
    }
    let Some(k) = find_profile(&config.profiles, name.as_str()) else {
        return Err(Error::ProfileNotFound { name })
    };
    match apply_profile(&config.profiles[k].profile, settings, terminal) {
        Ok((s, t)) => Ok(ProfileSwitch { name, profile_index: k, settings: s, terminal: t }),
        Err(e) => Err(e),
    }
}

/// `v` is the number written `n`.
pub open spec fn number_is(v: ConfigValue, n: Seq<char>) -> bool {
    match v {
        ConfigValue::Number(s) => s@ == n,
        _ => false,
    }
}

fn entry(path: Vec<String>, value: ConfigValue) -> (r: ConfigEntry)
    ensures
        r.config_path == path,
        r.value == value,
{
    ConfigEntry { config_path: path, value }
}

fn number(n: &str) -> (r: ConfigValue)
    ensures
        number_is(r, n@),
{
    ConfigValue::Number(String::from_str(n))
}

/// The store written on first use: `default` holds the live font sizes
/// (the terminal's, or 16 where it has none), `demo` larger literal sizes,
/// and `demo` is marked active so that the first toggle restores `default`.
pub fn initial_profiles(
    ui_font_size: ConfigValue,
    buffer_font_size: ConfigValue,
    terminal_font_size: Option<ConfigValue>,
) -> (r: (ProfilesConfig, CurrentProfile))
    ensures
        names_of(r.0.order@) == seq!["default"@, "demo"@],
        profile_names(r.0.profiles@) == seq!["default"@, "demo"@],
        profiles_wf(r.0.profiles@),
        ({
            let d = r.0.profiles@[0].profile;
            &&& d.zed_config@.len() == 2
            &&& d.zed_config@[0]@.path == seq!["ui_font_size"@]
            &&& d.zed_config@[0].value == ui_font_size
            &&& d.zed_config@[1]@.path == seq!["buffer_font_size"@]
            &&& d.zed_config@[1].value == buffer_font_size
            &&& d.alacritty_config@.len() == 1
            &&& d.alacritty_config@[0]@.path == seq!["font"@, "size"@]
            &&& match terminal_font_size {
                Some(v) => d.alacritty_config@[0].value == v,
                None => number_is(d.alacritty_config@[0].value, "16"@),
            }
        }),
        ({
            let m = r.0.profiles@[1].profile;
            &&& m.zed_config@.len() == 2
            &&& m.zed_config@[0]@.path == seq!["ui_font_size"@]
            &&& number_is(m.zed_config@[0].value, "24"@)
            &&& m.zed_config@[1]@.path == seq!["buffer_font_size"@]
            &&& number_is(m.zed_config@[1].value, "24"@)
            &&& m.alacritty_config@.len() == 1
            &&& m.alacritty_config@[0]@.path == seq!["font"@, "size"@]
            &&& number_is(m.alacritty_config@[0].value, "20"@)
        }),
        r.1.current_profile@ == "demo"@,
{
    let term = match terminal_font_size {
        Some(v) => v,
        None => number("16"),
    };
    let default_profile = Profile {
        zed_config: vec![
            entry(vec![String::from_str("ui_font_size")], ui_font_size),
            entry(vec![String::from_str("buffer_font_size")], buffer_font_size),
        ],
        alacritty_config: vec![
            entry(vec![String::from_str("font"), String::from_str("size")], term),
        ],
    };
    let demo_profile = Profile {
        zed_config: vec![
            entry(vec![String::from_str("ui_font_size")], number("24")),
            entry(vec![String::from_str("buffer_font_size")], number("24")),
        ],
        alacritty_config: vec![
            entry(vec![String::from_str("font"), String::from_str("size")], number("20")),
        ],
    };
    let profiles = vec![
        NamedProfile { name: String::from_str("default"), profile: default_profile },
        NamedProfile { name: String::from_str("demo"), profile: demo_profile },
    ];
    let order = vec![String::from_str("default"), String::from_str("demo")];
    let r = (
        ProfilesConfig { order, profiles },
        CurrentProfile { current_profile: String::from_str("demo") },
    );
    assert(names_of(r.0.order@) =~= seq!["default"@, "demo"@]);
    assert(profile_names(r.0.profiles@) =~= seq!["default"@, "demo"@]);
    proof {
        reveal_strlit("default");
        reveal_strlit("demo");
        assert(r.0.profiles@[0].name@.len() != r.0.profiles@[1].name@.len());
    }
    assert(r.0.profiles@[0].profile.zed_config@[0]@.path =~= seq!["ui_font_size"@]);
    assert(r.0.profiles@[0].profile.zed_config@[1]@.path =~= seq!["buffer_font_size"@]);
    assert(r.0.profiles@[0].profile.alacritty_config@[0]@.path =~= seq!["font"@, "size"@]);
    assert(r.0.profiles@[1].profile.zed_config@[0]@.path =~= seq!["ui_font_size"@]);
    assert(r.0.profiles@[1].profile.zed_config@[1]@.path =~= seq!["buffer_font_size"@]);
    assert(r.0.profiles@[1].profile.alacritty_config@[0]@.path =~= seq!["font"@, "size"@]);
    r
}

proof fn lemma_index_first(s: Seq<Seq<char>>, x: Seq<char>, i: int, k: int)
    requires
        0 <= i <= k < s.len(),
        s[k] == x,
        forall|j: int| i <= j < k ==> s[j] != x,
    ensures
        index_from(s, x, i) == Some(k),
    decreases k - i,
{
    if i < k {
        lemma_index_first(s, x, i + 1, k);
    }
}

/// Without a target, the toggle moves from a name to the one after it in
/// `order`, and from the last name back to the first (for a name that does
/// not also stand earlier in `order`).
pub proof fn lemma_cyclic_order(order: Seq<Seq<char>>, i: int)
    requires
        0 <= i < order.len(),
        forall|j: int| 0 <= j < i ==> order[j] != order[i],
    ensures
        next_spec(order, Some(order[i]), None) == order[(i + 1) % (order.len() as int)],
        i + 1 < order.len() ==> next_spec(order, Some(order[i]), None) == order[i + 1],
        i + 1 == order.len() ==> next_spec(order, Some(order[i]), None) == order[0],
{
    lemma_index_first(order, order[i], 0, i);
    if i + 1 < order.len() {
        vstd::arithmetic::div_mod::lemma_small_mod((i + 1) as nat, order.len() as nat);
    } else {
        vstd::arithmetic::div_mod::lemma_mod_self_0(order.len() as int);
    }
}

/// Asking for the active profile moves to `default`; unless the active
/// profile is `default` itself, that is never the profile asked for.
pub proof fn lemma_same_target_goes_default(order: Seq<Seq<char>>, current: Seq<char>)
    ensures
        next_spec(order, Some(current), Some(current)) == default_name(),
        current != default_name() ==> next_spec(order, Some(current), Some(current)) != current,
{
}

} // verus!
