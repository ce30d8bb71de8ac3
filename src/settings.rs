//! Service settings: their defaults, the repair of a loaded file, and
//! updates made at runtime.
use vstd::prelude::*;
use crate::text::{append_chars, chars_of, same_text, string_from_chars, views};

verus! {

/// The settings of the service.
#[derive(Debug)]
pub struct Settings {
    pub port: u16,
    pub allowed_ips: Vec<String>,
    pub rate_limit_per_second: u32,
    pub data_path: String,
    pub index_path: String,
    pub upsert_index_buffer: usize,
    pub compact_index_buffer: usize,
    pub default_scan_limit: usize,
    pub max_scan_limit: usize,
    pub payload_limit: usize,
}

pub const DEFAULT_PORT: u16 = 8080;
pub const DEFAULT_RATE_LIMIT: u32 = 10;
pub const DEFAULT_UPSERT_BUFFER: usize = 15_000_000;
pub const DEFAULT_COMPACT_BUFFER: usize = 50_000_000;
pub const DEFAULT_SCAN_LIMIT: usize = 100;
pub const DEFAULT_MAX_SCAN_LIMIT: usize = 1000;
pub const DEFAULT_PAYLOAD_LIMIT: usize = 2_097_152;

/// The settings are usable: every number above zero, every path non-empty.
pub open spec fn settings_valid(s: Settings) -> bool {
    &&& s.port > 0
    &&& s.rate_limit_per_second > 0
    &&& s.data_path@.len() > 0
    &&& s.index_path@.len() > 0
    &&& s.upsert_index_buffer > 0
    &&& s.compact_index_buffer > 0
    &&& s.default_scan_limit > 0
    &&& s.max_scan_limit > 0
    &&& s.payload_limit > 0
}

impl Default for Settings {
    fn default() -> (r: Settings)
        ensures
            r.port == DEFAULT_PORT,
            views(r.allowed_ips@) == seq!["127.0.0.1"@],
            r.rate_limit_per_second == DEFAULT_RATE_LIMIT,
            r.data_path@ == "./data"@,
            r.index_path@ == "./index"@,
            r.upsert_index_buffer == DEFAULT_UPSERT_BUFFER,
            r.compact_index_buffer == DEFAULT_COMPACT_BUFFER,
            r.default_scan_limit == DEFAULT_SCAN_LIMIT,
            r.max_scan_limit == DEFAULT_MAX_SCAN_LIMIT,
            r.payload_limit == DEFAULT_PAYLOAD_LIMIT,
            settings_valid(r),
    {
        proof {
            reveal_strlit("127.0.0.1");
            reveal_strlit("./data");
            reveal_strlit("./index");
        }
        let mut ips: Vec<String> = Vec::new();
        ips.push(String::from_str("127.0.0.1"));
        assert(views(ips@) =~= seq!["127.0.0.1"@]);
        Settings {
            port: DEFAULT_PORT,
            allowed_ips: ips,
            rate_limit_per_second: DEFAULT_RATE_LIMIT,
            data_path: String::from_str("./data"),
            index_path: String::from_str("./index"),
            upsert_index_buffer: DEFAULT_UPSERT_BUFFER,
            compact_index_buffer: DEFAULT_COMPACT_BUFFER,
            default_scan_limit: DEFAULT_SCAN_LIMIT,
            max_scan_limit: DEFAULT_MAX_SCAN_LIMIT,
            payload_limit: DEFAULT_PAYLOAD_LIMIT,
        }
    }
}

/// A value given for a setting in an update.
#[derive(Debug)]
pub enum SettingValue {
    /// A non-negative integer.
    Unsigned(u64),
    /// A string.
    Text(String),
    /// An array: each item's string, or `None` for an item that is none.
    List(Vec<Option<String>>),
    /// Anything else.
    Other,
}

/// The strings among the items of a list, in order.
pub open spec fn strings_of(items: Seq<Option<String>>) -> Seq<Seq<char>>
    decreases items.len(),
{
    if items.len() == 0 {
        Seq::empty()
    } else {
        match items.last() {
            Some(s) => strings_of(items.drop_last()).push(s@),
            None => strings_of(items.drop_last()),
        }
    }
}

/// The names of the numeric settings.
pub open spec fn is_numeric_key(k: Seq<char>) -> bool {
    k == "port"@ || k == "rate_limit_per_second"@ || k == "upsert_index_buffer"@ || k
        == "compact_index_buffer"@ || k == "default_scan_limit"@ || k == "max_scan_limit"@ || k
        == "payload_limit"@
}

/// The largest value a numeric setting can hold.
pub open spec fn numeric_max(k: Seq<char>) -> int {
    if k == "port"@ {
        u16::MAX as int
    } else if k == "rate_limit_per_second"@ {
        u32::MAX as int
    } else {
        usize::MAX as int
    }
}

/// The value of the numeric setting `k`.
pub open spec fn numeric_setting(s: Settings, k: Seq<char>) -> int {
    if k == "port"@ {
        s.port as int
    } else if k == "rate_limit_per_second"@ {
        s.rate_limit_per_second as int
    } else if k == "upsert_index_buffer"@ {
        s.upsert_index_buffer as int
    } else if k == "compact_index_buffer"@ {
        s.compact_index_buffer as int
    } else if k == "default_scan_limit"@ {
        s.default_scan_limit as int
    } else if k == "max_scan_limit"@ {
        s.max_scan_limit as int
    } else {
        s.payload_limit as int
    }
}

/// Everything but the numeric setting `k` is as in `b`.
pub open spec fn same_but_numeric(a: Settings, b: Settings, k: Seq<char>) -> bool {
    &&& k != "port"@ ==> a.port == b.port
    &&& k != "rate_limit_per_second"@ ==> a.rate_limit_per_second == b.rate_limit_per_second
    &&& k != "upsert_index_buffer"@ ==> a.upsert_index_buffer == b.upsert_index_buffer
    &&& k != "compact_index_buffer"@ ==> a.compact_index_buffer == b.compact_index_buffer
    &&& k != "default_scan_limit"@ ==> a.default_scan_limit == b.default_scan_limit
    &&& k != "max_scan_limit"@ ==> a.max_scan_limit == b.max_scan_limit
    &&& k != "payload_limit"@ ==> a.payload_limit == b.payload_limit
    &&& a.allowed_ips@ == b.allowed_ips@
    &&& a.data_path@ == b.data_path@
    &&& a.index_path@ == b.index_path@
}

/// Everything but the allow-list is as in `b`.
pub open spec fn same_but_allowed(a: Settings, b: Settings) -> bool {
    &&& a.port == b.port
    &&& a.rate_limit_per_second == b.rate_limit_per_second
    &&& a.upsert_index_buffer == b.upsert_index_buffer
    &&& a.compact_index_buffer == b.compact_index_buffer
    &&& a.default_scan_limit == b.default_scan_limit
    &&& a.max_scan_limit == b.max_scan_limit
    &&& a.payload_limit == b.payload_limit
    &&& a.data_path@ == b.data_path@
    &&& a.index_path@ == b.index_path@
}

/// Nothing changed.
pub open spec fn unchanged(a: Settings, b: Settings) -> bool {
    &&& a.port == b.port
    &&& a.rate_limit_per_second == b.rate_limit_per_second
    &&& a.upsert_index_buffer == b.upsert_index_buffer
    &&& a.compact_index_buffer == b.compact_index_buffer
    &&& a.default_scan_limit == b.default_scan_limit
    &&& a.max_scan_limit == b.max_scan_limit
    &&& a.payload_limit == b.payload_limit
    &&& a.allowed_ips@ == b.allowed_ips@
    &&& a.data_path@ == b.data_path@
    &&& a.index_path@ == b.index_path@
}

/// `prefix` followed by `key`.
pub open spec fn message(prefix: Seq<char>, key: Seq<char>) -> Seq<char> {
    prefix + key
}

fn message_exec(prefix: &str, key: &str) -> (r: String)
    ensures
        r@ == message(prefix@, key@),
{
    let mut cs = chars_of(prefix);
    let kc = chars_of(key);
    append_chars(&mut cs, kc.as_slice());
    string_from_chars(cs.as_slice())
}

/// Applies one update to the settings and returns what it reports. A numeric
/// setting takes a non-negative integer above zero that fits it; `data_path`
/// and `index_path` take a non-empty string; `allowed_ips` takes an array,
/// and keeps its strings (none, if it holds none). Such an update is
/// applied and reported as `Updated <key>`; a value of another kind changes
/// nothing and reports nothing; an unknown key reports `Unknown setting: <key>`.
pub fn apply_update(s: &mut Settings, key: &str, value: &SettingValue) -> (r: Option<String>)
    ensures
        is_numeric_key(key@) ==> match *value {
            SettingValue::Unsigned(n) if 0 < n <= numeric_max(key@) => {
                &&& numeric_setting(*final(s), key@) == n
                &&& same_but_numeric(*final(s), *old(s), key@)
                &&& r matches Some(m) && m@ == message("Updated "@, key@)
            },
            _ => unchanged(*final(s), *old(s)) && r is None,
        },
        key@ == "allowed_ips"@ ==> match *value {
            SettingValue::List(items) => {
                &&& views(final(s).allowed_ips@) == strings_of(items@)
                &&& same_but_allowed(*final(s), *old(s))
                &&& r matches Some(m) && m@ == message("Updated "@, key@)
            },
            _ => unchanged(*final(s), *old(s)) && r is None,
        },
        key@ == "data_path"@ || key@ == "index_path"@ ==> match *value {
            SettingValue::Text(t) if t@.len() > 0 => {
                &&& (key@ == "data_path"@ ==> final(s).data_path@ == t@ && final(s).index_path@
                    == old(s).index_path@)
                &&& (key@ == "index_path"@ ==> final(s).index_path@ == t@ && final(s).data_path@
                    == old(s).data_path@)
                &&& r matches Some(m) && m@ == message("Updated "@, key@)
            },
            _ => unchanged(*final(s), *old(s)) && r is None,
        },
        !is_numeric_key(key@) && key@ != "allowed_ips"@ && key@ != "data_path"@ && key@
            != "index_path"@ ==> unchanged(*final(s), *old(s)) && (r matches Some(m) && m@
            == message("Unknown setting: "@, key@)),
        settings_valid(*old(s)) ==> settings_valid(*final(s)),
{
    proof {
        reveal_strlit("port");
        reveal_strlit("rate_limit_per_second");
        reveal_strlit("upsert_index_buffer");
        reveal_strlit("compact_index_buffer");
        reveal_strlit("default_scan_limit");
        reveal_strlit("max_scan_limit");
        reveal_strlit("payload_limit");
        reveal_strlit("allowed_ips");
        reveal_strlit("data_path");
        reveal_strlit("index_path");
        assert("port"@.len() == 4);
        assert("rate_limit_per_second"@.len() == 21);
        assert("upsert_index_buffer"@.len() == 19);
        assert("compact_index_buffer"@.len() == 20);
        assert("default_scan_limit"@.len() == 18);
        assert("max_scan_limit"@.len() == 14);
        assert("payload_limit"@.len() == 13);
        assert("allowed_ips"@.len() == 11);
        assert("data_path"@.len() == 9);
        assert("index_path"@.len() == 10);
        assert("data_path"@[0] != "index_path"@[0]);
    }
    if same_text(key, "port") || same_text(key, "rate_limit_per_second") || same_text(
        key,
        "upsert_index_buffer",
    ) || same_text(key, "compact_index_buffer") || same_text(key, "default_scan_limit")
        || same_text(key, "max_scan_limit") || same_text(key, "payload_limit") {
        match value {
            SettingValue::Unsigned(n) => {
                let n = *n;
                if n == 0 {
                    return None;
                }
                if same_text(key, "port") {
                    if n > u16::MAX as u64 {
                        return None;
                    }
                    s.port = n as u16;
                } else if same_text(key, "rate_limit_per_second") {
                    if n > u32::MAX as u64 {
                        return None;
                    }
                    s.rate_limit_per_second = n as u32;
                } else {
                    if n > usize::MAX as u64 {
                        return None;
                    }
                    if same_text(key, "upsert_index_buffer") {
                        s.upsert_index_buffer = n as usize;
                    } else if same_text(key, "compact_index_buffer") {
                        s.compact_index_buffer = n as usize;
                    } else if same_text(key, "default_scan_limit") {
                        s.default_scan_limit = n as usize;
                    } else if same_text(key, "max_scan_limit") {
                        s.max_scan_limit = n as usize;
                    } else {
                        s.payload_limit = n as usize;
                    }
                }
                Some(message_exec("Updated ", key))
            },
            _ => None,
        }
    } else if same_text(key, "allowed_ips") {
        match value {
            SettingValue::List(items) => {
                let ips = strings_in(items.as_slice());
                s.allowed_ips = ips;
                Some(message_exec("Updated ", key))
            },
            _ => None,
        }
    } else if same_text(key, "data_path") || same_text(key, "index_path") {
        match value {
            SettingValue::Text(t) => {
                if t.as_str().unicode_len() == 0 {
                    return None;
                }
                if same_text(key, "data_path") {
                    s.data_path = t.clone();
                } else {
                    s.index_path = t.clone();
                }
                Some(message_exec("Updated ", key))
            },
            _ => None,
        }
    } else {
        Some(message_exec("Unknown setting: ", key))
    }
}

/// The strings among `items`, in order.
fn strings_in(items: &[Option<String>]) -> (r: Vec<String>)
    ensures
        views(r@) == strings_of(items@),
{
    let mut r: Vec<String> = Vec::new();
    let mut i: usize = 0;
    while i < items.len()
        invariant
            i <= items@.len(),
            views(r@) == strings_of(items@.subrange(0, i as int)),
        decreases items@.len() - i,
    {
        let ghost sub = items@.subrange(0, i + 1);
        assert(sub.drop_last() =~= items@.subrange(0, i as int));
        assert(sub.last() == items@[i as int]);
        match &items[i] {
            Some(t) => {
                let ghost before = views(r@);
                r.push(t.clone());
                assert(views(r@) =~= before.push(t@));
            },
            None => {},
        }
        i = i + 1;
    }
    assert(items@.subrange(0, items@.len() as int) =~= items@);
    r
}

/// The value of the first entry named `key` at or after `i`.
pub open spec fn entry_from(e: Seq<(String, SettingValue)>, key: Seq<char>, i: int) -> Option<
    SettingValue,
>
    decreases e.len() - i,
{
    if i < 0 || i >= e.len() {
        None
    } else if e[i].0@ == key {
        Some(e[i].1)
    } else {
        entry_from(e, key, i + 1)
    }
}

/// The value of the entry named `key`, if any.
pub open spec fn entry(e: Seq<(String, SettingValue)>, key: Seq<char>) -> Option<SettingValue> {
    entry_from(e, key, 0)
}

/// A number above zero and at most `max`.
pub open spec fn number_valid(v: Option<SettingValue>, max: int) -> bool {
    match v {
        Some(SettingValue::Unsigned(n)) => 0 < n <= max,
        _ => false,
    }
}

/// The number given when valid, else `default`.
pub open spec fn number_or(v: Option<SettingValue>, max: int, default: int) -> int {
    match v {
        Some(SettingValue::Unsigned(n)) => if 0 < n <= max {
            n as int
        } else {
            default
        },
        _ => default,
    }
}

/// A non-empty string.
pub open spec fn text_valid(v: Option<SettingValue>) -> bool {
    match v {
        Some(SettingValue::Text(t)) => t@.len() > 0,
        _ => false,
    }
}

/// The string given when valid, else `default`.
pub open spec fn text_or(v: Option<SettingValue>, default: Seq<char>) -> Seq<char> {
    match v {
        Some(SettingValue::Text(t)) => if t@.len() > 0 {
            t@
        } else {
            default
        },
        _ => default,
    }
}

/// A non-empty array of strings only.
pub open spec fn list_valid(v: Option<SettingValue>) -> bool {
    match v {
        Some(SettingValue::List(items)) => items@.len() > 0 && strings_of(items@).len()
            == items@.len(),
        _ => false,
    }
}

/// The strings given when valid, else `default`.
pub open spec fn list_or(v: Option<SettingValue>, default: Seq<Seq<char>>) -> Seq<Seq<char>> {
    if list_valid(v) {
        match v {
            Some(SettingValue::List(items)) => strings_of(items@),
            _ => default,
        }
    } else {
        default
    }
}

fn entry_exec<'a>(entries: &'a [(String, SettingValue)], key: &str) -> (r: Option<&'a SettingValue>)
    ensures
        match r {
            Some(v) => entry(entries@, key@) == Some(*v),
            None => entry(entries@, key@) is None,
        },
{
    let mut i: usize = 0;
    while i < entries.len()
        invariant
            i <= entries@.len(),
            entry(entries@, key@) == entry_from(entries@, key@, i as int),
        decreases entries@.len() - i,
    {
        if same_text(entries[i].0.as_str(), key) {
            return Some(&entries[i].1);
        }
        i = i + 1;
    }
    None
}

/// The settings that the entries of a settings file give: each field takes
/// the file's value when it is valid (a number above zero that fits, a
/// non-empty string, a non-empty array of strings only) and its default
/// otherwise; the flag tells whether any field took its default.
pub fn merge_settings(entries: &[(String, SettingValue)]) -> (r: (Settings, bool))
    ensures
        r.0.port == number_or(entry(entries@, "port"@), u16::MAX as int, DEFAULT_PORT as int),
        r.0.rate_limit_per_second == number_or(entry(entries@, "rate_limit_per_second"@), u32::MAX as int, DEFAULT_RATE_LIMIT as int),
        r.0.upsert_index_buffer == number_or(entry(entries@, "upsert_index_buffer"@), usize::MAX as int, DEFAULT_UPSERT_BUFFER as int),
        r.0.compact_index_buffer == number_or(entry(entries@, "compact_index_buffer"@), usize::MAX as int, DEFAULT_COMPACT_BUFFER as int),
        r.0.default_scan_limit == number_or(entry(entries@, "default_scan_limit"@), usize::MAX as int, DEFAULT_SCAN_LIMIT as int),
        r.0.max_scan_limit == number_or(entry(entries@, "max_scan_limit"@), usize::MAX as int, DEFAULT_MAX_SCAN_LIMIT as int),
        r.0.payload_limit == number_or(entry(entries@, "payload_limit"@), usize::MAX as int, DEFAULT_PAYLOAD_LIMIT as int),
        r.0.data_path@ == text_or(entry(entries@, "data_path"@), "./data"@),
        r.0.index_path@ == text_or(entry(entries@, "index_path"@), "./index"@),
        views(r.0.allowed_ips@) == list_or(entry(entries@, "allowed_ips"@), seq!["127.0.0.1"@]),
        r.1 == !(number_valid(entry(entries@, "port"@), u16::MAX as int)
            && number_valid(entry(entries@, "rate_limit_per_second"@), u32::MAX as int)
            && number_valid(entry(entries@, "upsert_index_buffer"@), usize::MAX as int)
            && number_valid(entry(entries@, "compact_index_buffer"@), usize::MAX as int)
            && number_valid(entry(entries@, "default_scan_limit"@), usize::MAX as int)
            && number_valid(entry(entries@, "max_scan_limit"@), usize::MAX as int)
            && number_valid(entry(entries@, "payload_limit"@), usize::MAX as int)
            && text_valid(entry(entries@, "data_path"@))
            && text_valid(entry(entries@, "index_path"@))
            && list_valid(entry(entries@, "allowed_ips"@))),
        settings_valid(r.0),
{
    let d = Settings::default();
    let mut changed = false;
    proof {
        reveal_strlit("127.0.0.1");
        reveal_strlit("./data");
        reveal_strlit("./index");
    }
    let port: u16 = match entry_exec(entries, "port") {
        Some(SettingValue::Unsigned(n)) if *n > 0 && *n <= u16::MAX as u64 => *n as u16,
        _ => {
            changed = true;
            d.port
        },
    };
    let rate_limit_per_second: u32 = match entry_exec(entries, "rate_limit_per_second") {
        Some(SettingValue::Unsigned(n)) if *n > 0 && *n <= u32::MAX as u64 => *n as u32,
        _ => {
            changed = true;
            d.rate_limit_per_second
        },
    };
    let upsert_index_buffer: usize = match entry_exec(entries, "upsert_index_buffer") {
        Some(SettingValue::Unsigned(n)) if *n > 0 && *n <= usize::MAX as u64 => *n as usize,
        _ => {
            changed = true;
            d.upsert_index_buffer
        },
    };
    let compact_index_buffer: usize = match entry_exec(entries, "compact_index_buffer") {
        Some(SettingValue::Unsigned(n)) if *n > 0 && *n <= usize::MAX as u64 => *n as usize,
        _ => {
            changed = true;
            d.compact_index_buffer
        },
    };
    let default_scan_limit: usize = match entry_exec(entries, "default_scan_limit") {
        Some(SettingValue::Unsigned(n)) if *n > 0 && *n <= usize::MAX as u64 => *n as usize,
        _ => {
            changed = true;
            d.default_scan_limit
        },
    };
    let max_scan_limit: usize = match entry_exec(entries, "max_scan_limit") {
        Some(SettingValue::Unsigned(n)) if *n > 0 && *n <= usize::MAX as u64 => *n as usize,
        _ => {
            changed = true;
            d.max_scan_limit
        },
    };
    let payload_limit: usize = match entry_exec(entries, "payload_limit") {
        Some(SettingValue::Unsigned(n)) if *n > 0 && *n <= usize::MAX as u64 => *n as usize,
        _ => {
            changed = true;
            d.payload_limit
        },
    };
    let data_path: String = match entry_exec(entries, "data_path") {
        Some(SettingValue::Text(t)) if t.as_str().unicode_len() > 0 => t.clone(),
        _ => {
            changed = true;
            d.data_path
        },
    };
    let index_path: String = match entry_exec(entries, "index_path") {
        Some(SettingValue::Text(t)) if t.as_str().unicode_len() > 0 => t.clone(),
        _ => {
            changed = true;
            d.index_path
        },
    };
    let allowed_ips: Vec<String> = match entry_exec(entries, "allowed_ips") {
        Some(SettingValue::List(items)) => {
            let ips = strings_in(items.as_slice());
            if items.len() > 0 && ips.len() == items.len() {
                ips
            } else {
                changed = true;
                d.allowed_ips
            }
        },
        _ => {
            changed = true;
            d.allowed_ips
        },
    };
    (
        Settings {
            port,
            allowed_ips,
            rate_limit_per_second,
            data_path,
            index_path,
            upsert_index_buffer,
            compact_index_buffer,
            default_scan_limit,
            max_scan_limit,
            payload_limit,
        },
        changed,
    )
}

/// The entries `e` hold each setting of `s` under its name: numbers as
/// non-negative integers, paths as strings, the allow-list as an array of
/// its strings.
pub open spec fn holds_settings(e: Seq<(String, SettingValue)>, s: Settings) -> bool {
    &&& entry(e, "port"@) == Some(SettingValue::Unsigned(s.port as u64))
    &&& entry(e, "rate_limit_per_second"@) == Some(SettingValue::Unsigned(s.rate_limit_per_second as u64))
    &&& entry(e, "upsert_index_buffer"@) == Some(SettingValue::Unsigned(s.upsert_index_buffer as u64))
    &&& entry(e, "compact_index_buffer"@) == Some(SettingValue::Unsigned(s.compact_index_buffer as u64))
    &&& entry(e, "default_scan_limit"@) == Some(SettingValue::Unsigned(s.default_scan_limit as u64))
    &&& entry(e, "max_scan_limit"@) == Some(SettingValue::Unsigned(s.max_scan_limit as u64))
    &&& entry(e, "payload_limit"@) == Some(SettingValue::Unsigned(s.payload_limit as u64))
    &&& entry(e, "data_path"@) matches Some(SettingValue::Text(t)) && t@ == s.data_path@
    &&& entry(e, "index_path"@) matches Some(SettingValue::Text(t)) && t@ == s.index_path@
    &&& entry(e, "allowed_ips"@) matches Some(SettingValue::List(items)) && items@.len()
        == s.allowed_ips@.len() && forall|i: int|
        0 <= i < items@.len() ==> (#[trigger] items@[i] matches Some(t) && t@ == s.allowed_ips@[i]@)
}

/// The entries that a settings file holds for `s`, one per setting.
pub fn settings_entries(s: &Settings) -> (r: Vec<(String, SettingValue)>)
    ensures
        holds_settings(r@, *s),
{
    proof {
        reveal_strlit("port");
        reveal_strlit("rate_limit_per_second");
        reveal_strlit("upsert_index_buffer");
        reveal_strlit("compact_index_buffer");
        reveal_strlit("default_scan_limit");
        reveal_strlit("max_scan_limit");
        reveal_strlit("payload_limit");
        reveal_strlit("data_path");
        reveal_strlit("index_path");
        reveal_strlit("allowed_ips");
        assert("port"@.len() == 4);
        assert("rate_limit_per_second"@.len() == 21);
        assert("upsert_index_buffer"@.len() == 19);
        assert("compact_index_buffer"@.len() == 20);
        assert("default_scan_limit"@.len() == 18);
        assert("max_scan_limit"@.len() == 14);
        assert("payload_limit"@.len() == 13);
        assert("data_path"@.len() == 9);
        assert("index_path"@.len() == 10);
        assert("allowed_ips"@.len() == 11);
        assert("data_path"@[0] != "index_path"@[0]);
    }
    let mut ips: Vec<Option<String>> = Vec::new();
    let mut i: usize = 0;
    while i < s.allowed_ips.len()
        invariant
            i <= s.allowed_ips@.len(),
            ips@.len() == i,
            forall|j: int| 0 <= j < i ==> (#[trigger] ips@[j] matches Some(t) && t@ == s.allowed_ips@[j]@),
        decreases s.allowed_ips@.len() - i,
    {
        ips.push(Some(s.allowed_ips[i].clone()));
        i = i + 1;
    }
    let mut e: Vec<(String, SettingValue)> = Vec::new();
    e.push((String::from_str("port"), SettingValue::Unsigned(s.port as u64)));
    e.push((String::from_str("rate_limit_per_second"), SettingValue::Unsigned(s.rate_limit_per_second as u64)));
    e.push((String::from_str("upsert_index_buffer"), SettingValue::Unsigned(s.upsert_index_buffer as u64)));
    e.push((String::from_str("compact_index_buffer"), SettingValue::Unsigned(s.compact_index_buffer as u64)));
    e.push((String::from_str("default_scan_limit"), SettingValue::Unsigned(s.default_scan_limit as u64)));
    e.push((String::from_str("max_scan_limit"), SettingValue::Unsigned(s.max_scan_limit as u64)));
    e.push((String::from_str("payload_limit"), SettingValue::Unsigned(s.payload_limit as u64)));
    e.push((String::from_str("data_path"), SettingValue::Text(s.data_path.clone())));
    e.push((String::from_str("index_path"), SettingValue::Text(s.index_path.clone())));
    e.push((String::from_str("allowed_ips"), SettingValue::List(ips)));
    proof {
        assert(entry(e@, "port"@) == Some(e@[0].1)) by {
            lemma_entry_at(e@, "port"@, 0);
        }
        assert(entry(e@, "rate_limit_per_second"@) == Some(e@[1].1)) by {
            lemma_entry_at(e@, "rate_limit_per_second"@, 1);
        }
        assert(entry(e@, "upsert_index_buffer"@) == Some(e@[2].1)) by {
            lemma_entry_at(e@, "upsert_index_buffer"@, 2);
        }
        assert(entry(e@, "compact_index_buffer"@) == Some(e@[3].1)) by {
            lemma_entry_at(e@, "compact_index_buffer"@, 3);
        }
        assert(entry(e@, "default_scan_limit"@) == Some(e@[4].1)) by {
            lemma_entry_at(e@, "default_scan_limit"@, 4);
        }
        assert(entry(e@, "max_scan_limit"@) == Some(e@[5].1)) by {
            lemma_entry_at(e@, "max_scan_limit"@, 5);
        }
        assert(entry(e@, "payload_limit"@) == Some(e@[6].1)) by {
            lemma_entry_at(e@, "payload_limit"@, 6);
        }
        assert(entry(e@, "data_path"@) == Some(e@[7].1)) by {
            lemma_entry_at(e@, "data_path"@, 7);
        }
        assert(entry(e@, "index_path"@) == Some(e@[8].1)) by {
            lemma_entry_at(e@, "index_path"@, 8);
        }
        assert(entry(e@, "allowed_ips"@) == Some(e@[9].1)) by {
            lemma_entry_at(e@, "allowed_ips"@, 9);
        }
    }
    e
}

proof fn lemma_entry_at(e: Seq<(String, SettingValue)>, key: Seq<char>, n: int)
    requires
        0 <= n < e.len(),
        e[n].0@ == key,
        forall|j: int| 0 <= j < n ==> (#[trigger] e[j]).0@ != key,
    ensures
        entry(e, key) == Some(e[n].1),
{
    lemma_entry_from_at(e, key, 0, n);
}

proof fn lemma_entry_from_at(e: Seq<(String, SettingValue)>, key: Seq<char>, i: int, n: int)
    requires
        0 <= i <= n < e.len(),
        e[n].0@ == key,
        forall|j: int| 0 <= j < n ==> (#[trigger] e[j]).0@ != key,
    ensures
        entry_from(e, key, i) == Some(e[n].1),
    decreases n - i,
{
    if i < n {
        lemma_entry_from_at(e, key, i + 1, n);
    }
}

/// Settings written to a file and read back are the same settings: when the
/// file's entries hold each setting of usable settings with a non-empty
/// allow-list, the merge keeps every one of them and takes no default.
pub proof fn lemma_settings_round_trip(s: Settings, e: Seq<(String, SettingValue)>)
    requires
        settings_valid(s),
        s.allowed_ips@.len() > 0,
        holds_settings(e, s),
    ensures
        number_or(entry(e, "port"@), u16::MAX as int, 0) == s.port,
        number_valid(entry(e, "port"@), u16::MAX as int),
        number_or(entry(e, "rate_limit_per_second"@), u32::MAX as int, 0) == s.rate_limit_per_second,
        number_valid(entry(e, "rate_limit_per_second"@), u32::MAX as int),
        number_or(entry(e, "upsert_index_buffer"@), usize::MAX as int, 0) == s.upsert_index_buffer,
        number_valid(entry(e, "upsert_index_buffer"@), usize::MAX as int),
        number_or(entry(e, "compact_index_buffer"@), usize::MAX as int, 0) == s.compact_index_buffer,
        number_valid(entry(e, "compact_index_buffer"@), usize::MAX as int),
        number_or(entry(e, "default_scan_limit"@), usize::MAX as int, 0) == s.default_scan_limit,
        number_valid(entry(e, "default_scan_limit"@), usize::MAX as int),
        number_or(entry(e, "max_scan_limit"@), usize::MAX as int, 0) == s.max_scan_limit,
        number_valid(entry(e, "max_scan_limit"@), usize::MAX as int),
        number_or(entry(e, "payload_limit"@), usize::MAX as int, 0) == s.payload_limit,
        number_valid(entry(e, "payload_limit"@), usize::MAX as int),
        text_valid(entry(e, "data_path"@)) && text_or(entry(e, "data_path"@), "./data"@)
            == s.data_path@,
        text_valid(entry(e, "index_path"@)) && text_or(entry(e, "index_path"@), "./index"@)
            == s.index_path@,
        list_valid(entry(e, "allowed_ips"@)),
        list_or(entry(e, "allowed_ips"@), seq!["127.0.0.1"@]) == views(s.allowed_ips@),
{
    let v = entry(e, "allowed_ips"@);
    match v {
        Some(SettingValue::List(items)) => {
            lemma_strings_all(items@, s.allowed_ips@);
        },
        _ => {},
    }
}

proof fn lemma_strings_all(items: Seq<Option<String>>, ips: Seq<String>)
    requires
        items.len() == ips.len(),
        forall|i: int| 0 <= i < items.len() ==> (#[trigger] items[i] matches Some(t) && t@ == ips[i]@),
    ensures
        strings_of(items) == views(ips),
    decreases items.len(),
{
    if items.len() > 0 {
        let d = items.drop_last();
        let p = ips.drop_last();
        assert forall|i: int| 0 <= i < d.len() implies (#[trigger] d[i] matches Some(t) && t@ == p[i]@) by {
            assert(d[i] == items[i] && p[i] == ips[i]);
        }
        lemma_strings_all(d, p);
        assert(items.last() == items[items.len() - 1]);
        assert(views(ips) =~= views(p).push(ips.last()@));
    } else {
        assert(views(ips) =~= Seq::<Seq<char>>::empty());
    }
}

} // verus!
