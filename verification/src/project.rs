//! The project configuration file `typstyle.toml`: formatting options under
//! any of their spellings, and function hints under `[function-hints.<name>]`.
use vstd::prelude::*;

use crate::config::Config;
use crate::facts::{FormatFacts, FunctionFact, FunctionHint, TableLikeHint};
use crate::text::str_eq;

verus! {

broadcast use vstd::string::group_string_axioms;

/// A TOML value, as far as the configuration reads it.
pub enum TomlValue {
    Integer(i64),
    Boolean(bool),
    Str(String),
    /// A table: its keys, each once, with their values, in the order in
    /// which the table is walked. The order decides which bad function hint
    /// is reported first and the order of the facts the hints become.
    Table(Vec<(String, TomlValue)>),
    /// Any other value (float, date, array).
    Other,
}

/// What is wrong with a configuration file.
#[derive(Debug, Clone, PartialEq, Eq)]
pub enum ConfigError {
    /// Two spellings of one option are both given.
    KeyConflict(String, String),
    NotInteger(String),
    NotNonNegative(String),
    NotBoolean(String),
    /// The `kind` of a function hint is missing or not a string.
    HintKindNotString(String),
    /// The `columns` of a function hint is a negative integer.
    HintColumnsNegative(String),
    /// The `kind` of a function hint is neither `table` nor `grid`.
    HintUnknownKind(String),
    /// The file is not a TOML document; what the TOML parser says of it.
    Syntax(String),
}

/// A configuration error as a value.
pub enum ConfigFault {
    KeyConflict(Seq<char>, Seq<char>),
    NotInteger(Seq<char>),
    NotNonNegative(Seq<char>),
    NotBoolean(Seq<char>),
    HintKindNotString(Seq<char>),
    HintColumnsNegative(Seq<char>),
    HintUnknownKind(Seq<char>),
    Syntax(Seq<char>),
}

impl View for ConfigError {
    type V = ConfigFault;

    open spec fn view(&self) -> ConfigFault {
        match self {
            ConfigError::KeyConflict(a, b) => ConfigFault::KeyConflict(a@, b@),
            ConfigError::NotInteger(k) => ConfigFault::NotInteger(k@),
            ConfigError::NotNonNegative(k) => ConfigFault::NotNonNegative(k@),
            ConfigError::NotBoolean(k) => ConfigFault::NotBoolean(k@),
            ConfigError::HintKindNotString(k) => ConfigFault::HintKindNotString(k@),
            ConfigError::HintColumnsNegative(k) => ConfigFault::HintColumnsNegative(k@),
            ConfigError::HintUnknownKind(k) => ConfigFault::HintUnknownKind(k@),
            ConfigError::Syntax(m) => ConfigFault::Syntax(m@),
        }
    }
}

/// The options and facts a project's `typstyle.toml` gives.
#[derive(Debug, Clone)]
pub struct ProjectConfig {
    pub config: Config,
    pub facts: FormatFacts,
}

impl Default for ProjectConfig {
    fn default() -> (res: Self)
        ensures
            res.config == Config::spec_default(),
            res.facts@ == Seq::<FunctionFact>::empty(),
    {
        ProjectConfig { config: Config::new(), facts: FormatFacts::new() }
    }
}

/// The value of `key` in a table: that of its first entry with that key.
pub open spec fn table_lookup(entries: Seq<(String, TomlValue)>, key: Seq<char>) -> Option<
    TomlValue,
>
    decreases entries.len(),
{
    if entries.len() == 0 {
        None
    } else if entries[0].0@ == key {
        Some(entries[0].1)
    } else {
        table_lookup(entries.drop_first(), key)
    }
}

/// The value of `key` in a value that is a table; nothing in any other value.
pub open spec fn value_lookup(v: TomlValue, key: Seq<char>) -> Option<TomlValue> {
    match v {
        TomlValue::Table(entries) => table_lookup(entries@, key),
        _ => None,
    }
}

/// Look up `key` in a table.
pub fn table_get<'a>(entries: &'a Vec<(String, TomlValue)>, key: &str) -> (res: Option<
    &'a TomlValue,
>)
    ensures
        match res {
            Some(v) => table_lookup(entries@, key@) == Some(*v),
            None => table_lookup(entries@, key@) is None,
        },
{
    let mut k: usize = 0;
    proof {
        assert(entries@.skip(0) =~= entries@);
    }
    while k < entries.len()
        invariant
            k <= entries@.len(),
            table_lookup(entries@, key@) == table_lookup(entries@.skip(k as int), key@),
        decreases entries@.len() - k,
    {
        proof {
            assert(entries@.skip(k as int).drop_first() =~= entries@.skip(k + 1));
            assert(entries@.skip(k as int)[0] == entries@[k as int]);
        }
        if str_eq(entries[k].0.as_str(), key) {
            return Some(&entries[k].1);
        }
        k = k + 1;
    }
    None
}

/// Look up `key` in a value that is a table.
pub fn value_get<'a>(v: &'a TomlValue, key: &str) -> (res: Option<&'a TomlValue>)
    ensures
        match res {
            Some(r) => value_lookup(*v, key@) == Some(*r),
            None => value_lookup(*v, key@) is None,
        },
{
    match v {
        TomlValue::Table(entries) => table_get(entries, key),
        _ => None,
    }
}

/// Looking up the spellings of one option: none given, one given (its index
/// and value), or two given (the indices of the first two).
pub enum Lookup {
    Absent,
    Found(int, TomlValue),
    Conflict(int, int),
}

/// The first spelling from index `from` on that the table gives.
pub open spec fn first_present(root: Seq<(String, TomlValue)>, keys: Seq<Seq<char>>, from: int) -> Option<int>
    decreases keys.len() - from,
{
    if from < 0 || from >= keys.len() {
        None
    } else if table_lookup(root, keys[from]) is Some {
        Some(from)
    } else {
        first_present(root, keys, from + 1)
    }
}

/// Looking up the spellings `keys` of one option in the table.
pub open spec fn spec_unique(root: Seq<(String, TomlValue)>, keys: Seq<Seq<char>>) -> Lookup {
    match first_present(root, keys, 0) {
        None => Lookup::Absent,
        Some(i) => match first_present(root, keys, i + 1) {
            Some(j) => Lookup::Conflict(i, j),
            None => Lookup::Found(i, table_lookup(root, keys[i])->0),
        },
    }
}

/// The option as a `usize`, if given.
pub open spec fn spec_get_usize(root: Seq<(String, TomlValue)>, keys: Seq<Seq<char>>) -> Result<
    Option<usize>,
    ConfigFault,
> {
    match spec_unique(root, keys) {
        Lookup::Absent => Ok(None),
        Lookup::Conflict(i, j) => Err(ConfigFault::KeyConflict(keys[i], keys[j])),
        Lookup::Found(i, v) => match v {
            TomlValue::Integer(n) => if 0 <= n <= usize::MAX {
                Ok(Some(n as usize))
            } else {
                Err(ConfigFault::NotNonNegative(keys[i]))
            },
            _ => Err(ConfigFault::NotInteger(keys[i])),
        },
    }
}

/// The option as a `bool`, if given.
pub open spec fn spec_get_bool(root: Seq<(String, TomlValue)>, keys: Seq<Seq<char>>) -> Result<
    Option<bool>,
    ConfigFault,
> {
    match spec_unique(root, keys) {
        Lookup::Absent => Ok(None),
        Lookup::Conflict(i, j) => Err(ConfigFault::KeyConflict(keys[i], keys[j])),
        Lookup::Found(i, v) => match v {
            TomlValue::Boolean(b) => Ok(Some(b)),
            _ => Err(ConfigFault::NotBoolean(keys[i])),
        },
    }
}

/// The result, its error taken as a value.
pub open spec fn result_view<T>(r: Result<T, ConfigError>) -> Result<T, ConfigFault> {
    match r {
        Ok(t) => Ok(t),
        Err(e) => Err(e@),
    }
}

proof fn lemma_first_present_from(root: Seq<(String, TomlValue)>, keys: Seq<Seq<char>>, from: int)
    requires
        0 <= from <= keys.len(),
    ensures
        first_present(root, keys, from) matches Some(i) ==> from <= i < keys.len() && table_lookup(
            root,
            keys[i],
        ) is Some && forall|m: int| from <= m < i ==> table_lookup(root, #[trigger] keys[m]) is None,
        first_present(root, keys, from) is None ==> forall|m: int|
            from <= m < keys.len() ==> table_lookup(root, #[trigger] keys[m]) is None,
    decreases keys.len() - from,
{
    if from < keys.len() {
        lemma_first_present_from(root, keys, from + 1);
    }
}

/// Find the spelling of an option the table gives; two spellings given at
/// once are an error.
pub fn get_unique<'a, 'k>(root: &'a Vec<(String, TomlValue)>, keys: &'k [&'k str]) -> (res: Result<
    Option<(&'k str, &'a TomlValue)>,
    ConfigError,
>)
    ensures
        ({
            let ks = keys@.map_values(|k: &str| k@);
            match spec_unique(root@, ks) {
                Lookup::Absent => res == Ok::<Option<(&'k str, &'a TomlValue)>, ConfigError>(None),
                Lookup::Conflict(i, j) => res matches Err(e) && e@ == ConfigFault::KeyConflict(
                    ks[i],
                    ks[j],
                ),
                Lookup::Found(i, v) => res matches Ok(Some((key, value))) && key@ == ks[i] && *value
                    == v,
            }
        }),
{
    let ghost ks = keys@.map_values(|k: &str| k@);
    let mut first: Option<(&'k str, &'a TomlValue)> = None;
    let mut k: usize = 0;
    while k < keys.len()
        invariant
            k <= keys@.len(),
            ks == keys@.map_values(|k: &str| k@),
            match first {
                None => forall|m: int| 0 <= m < k ==> table_lookup(root@, #[trigger] ks[m]) is None,
                Some((key, value)) => {
                    let i = first_present(root@, ks, 0)->0;
                    &&& first_present(root@, ks, 0) is Some
                    &&& i < k
                    &&& key@ == ks[i]
                    &&& table_lookup(root@, ks[i]) == Some(*value)
                    &&& forall|m: int| i < m < k ==> table_lookup(root@, #[trigger] ks[m]) is None
                },
            },
        decreases keys@.len() - k,
    {
        let found = table_get(root, keys[k]);
        proof {
            assert(ks[k as int] == keys@[k as int]@);
        }
        if let Some(value) = found {
            match first {
                None => {
                    proof {
                        lemma_first_present_from(root@, ks, 0);
                        let i = first_present(root@, ks, 0);
                        if i is None {
                            assert(table_lookup(root@, ks[k as int]) is None);
                        } else if i->0 < k {
                            assert(table_lookup(root@, ks[i->0]) is None);
                        } else if i->0 > k {
                            assert(table_lookup(root@, ks[k as int]) is None);
                        }
                    }
                    first = Some((keys[k], value));
                },
                Some((first_key, _)) => {
                    proof {
                        let i = first_present(root@, ks, 0)->0;
                        lemma_first_present_from(root@, ks, 0);
                        lemma_first_present_from(root@, ks, i + 1);
                        let j = first_present(root@, ks, i + 1);
                        if j is None {
                            assert(table_lookup(root@, ks[k as int]) is None);
                        } else if j->0 < k {
                            assert(table_lookup(root@, ks[j->0]) is None);
                        } else if j->0 > k {
                            assert(table_lookup(root@, ks[k as int]) is None);
                        }
                    }
                    return Err(ConfigError::KeyConflict(first_key.to_owned(), keys[k].to_owned()));
                },
            }
        }
        k = k + 1;
    }
    proof {
        lemma_first_present_from(root@, ks, 0);
        if let Some(_) = first {
            let i = first_present(root@, ks, 0)->0;
            lemma_first_present_from(root@, ks, i + 1);
        }
    }
    Ok(first)
}

/// The option as a `usize`, if given.
pub fn get_usize(root: &Vec<(String, TomlValue)>, keys: &[&str]) -> (res: Result<
    Option<usize>,
    ConfigError,
>)
    ensures
        result_view(res) == spec_get_usize(root@, keys@.map_values(|k: &str| k@)),
{
    let (key, value) = match get_unique(root, keys) {
        Err(e) => {
            return Err(e);
        },
        Ok(None) => {
            return Ok(None);
        },
        Ok(Some(found)) => found,
    };
    match value {
        TomlValue::Integer(n) => {
            if *n < 0 || (*n as u64) > (usize::MAX as u64) {
                Err(ConfigError::NotNonNegative(key.to_owned()))
            } else {
                Ok(Some(*n as usize))
            }
        },
        _ => Err(ConfigError::NotInteger(key.to_owned())),
    }
}

/// The option as a `bool`, if given.
pub fn get_bool(root: &Vec<(String, TomlValue)>, keys: &[&str]) -> (res: Result<
    Option<bool>,
    ConfigError,
>)
    ensures
        result_view(res) == spec_get_bool(root@, keys@.map_values(|k: &str| k@)),
{
    let (key, value) = match get_unique(root, keys) {
        Err(e) => {
            return Err(e);
        },
        Ok(None) => {
            return Ok(None);
        },
        Ok(Some(found)) => found,
    };
    match value {
        TomlValue::Boolean(b) => Ok(Some(*b)),
        _ => Err(ConfigError::NotBoolean(key.to_owned())),
    }
}


// ---------------------------------------------------------------------------
// Formatting options

/// The spellings of the line width option.
pub open spec fn max_width_keys() -> Seq<Seq<char>> {
    seq!["max_width"@, "max-width"@, "line_width"@, "line-width"@]
}

/// The spellings of the indentation option.
pub open spec fn tab_spaces_keys() -> Seq<Seq<char>> {
    seq!["tab_spaces"@, "tab-spaces"@, "indent_width"@, "indent-width"@]
}

/// The spellings of the blank lines option.
pub open spec fn blank_lines_keys() -> Seq<Seq<char>> {
    seq!["blank_lines_upper_bound"@, "blank-lines-upper-bound"@]
}

/// The spellings of the space collapsing option.
pub open spec fn collapse_keys() -> Seq<Seq<char>> {
    seq!["collapse_markup_spaces"@, "collapse-markup-spaces"@]
}

/// The spellings of the import sorting option.
pub open spec fn reorder_keys() -> Seq<Seq<char>> {
    seq!["reorder_import_items"@, "reorder-import-items"@]
}

/// The spellings of the text wrapping option.
pub open spec fn wrap_keys() -> Seq<Seq<char>> {
    seq!["wrap_text"@, "wrap-text"@]
}

/// The options a configuration table gives, over the defaults; the first bad
/// option, in the order line width, indentation, blank lines, space
/// collapsing, import sorting, text wrapping, is the error. Wrapping text
/// also collapses spaces.
pub open spec fn spec_format_config(root: Seq<(String, TomlValue)>) -> Result<Config, ConfigFault> {
    let c0 = Config::spec_default();
    match spec_get_usize(root, max_width_keys()) {
        Err(e) => Err(e),
        Ok(o1) => {
            let c1 = match o1 {
                Some(v) => Config { max_width: v, ..c0 },
                None => c0,
            };
            match spec_get_usize(root, tab_spaces_keys()) {
                Err(e) => Err(e),
                Ok(o2) => {
                    let c2 = match o2 {
                        Some(v) => Config { tab_spaces: v, ..c1 },
                        None => c1,
                    };
                    match spec_get_usize(root, blank_lines_keys()) {
                        Err(e) => Err(e),
                        Ok(o3) => {
                            let c3 = match o3 {
                                Some(v) => Config { blank_lines_upper_bound: v, ..c2 },
                                None => c2,
                            };
                            match spec_get_bool(root, collapse_keys()) {
                                Err(e) => Err(e),
                                Ok(o4) => {
                                    let c4 = match o4 {
                                        Some(b) => Config { collapse_markup_spaces: b, ..c3 },
                                        None => c3,
                                    };
                                    match spec_get_bool(root, reorder_keys()) {
                                        Err(e) => Err(e),
                                        Ok(o5) => {
                                            let c5 = match o5 {
                                                Some(b) => Config { reorder_import_items: b, ..c4 },
                                                None => c4,
                                            };
                                            match spec_get_bool(root, wrap_keys()) {
                                                Err(e) => Err(e),
                                                Ok(o6) => Ok(
                                                    match o6 {
                                                        Some(b) => Config {
                                                            wrap_text: b,
                                                            collapse_markup_spaces: c5.collapse_markup_spaces
                                                                || b,
                                                            ..c5
                                                        },
                                                        None => c5,
                                                    },
                                                ),
                                            }
                                        },
                                    }
                                },
                            }
                        },
                    }
                },
            }
        },
    }
}

/// The table gives the option under exactly one of its spellings, `keys[i]`,
/// with the value `v`.
pub open spec fn given_once(root: Seq<(String, TomlValue)>, keys: Seq<Seq<char>>, i: int, v: TomlValue) -> bool {
    &&& 0 <= i < keys.len()
    &&& table_lookup(root, keys[i]) == Some(v)
    &&& forall|j: int| 0 <= j < keys.len() && j != i ==> table_lookup(root, #[trigger] keys[j]) is None
}

/// The table gives the option under none of its spellings.
pub open spec fn not_given(root: Seq<(String, TomlValue)>, keys: Seq<Seq<char>>) -> bool {
    forall|j: int| 0 <= j < keys.len() ==> table_lookup(root, #[trigger] keys[j]) is None
}

proof fn lemma_unique_given(root: Seq<(String, TomlValue)>, keys: Seq<Seq<char>>, i: int, v: TomlValue)
    requires
        given_once(root, keys, i, v),
    ensures
        spec_unique(root, keys) == Lookup::Found(i, v),
{
    lemma_first_present_from(root, keys, 0);
    match first_present(root, keys, 0) {
        Some(k) => {
            if k != i {
                assert(table_lookup(root, keys[k]) is None);
            }
            lemma_first_present_from(root, keys, i + 1);
            match first_present(root, keys, i + 1) {
                Some(j) => {
                    assert(table_lookup(root, keys[j]) is None);
                },
                None => {},
            }
        },
        None => {
            assert(table_lookup(root, keys[i]) is None);
        },
    }
}

proof fn lemma_unique_absent(root: Seq<(String, TomlValue)>, keys: Seq<Seq<char>>)
    requires
        not_given(root, keys),
    ensures
        spec_unique(root, keys) == Lookup::Absent,
{
    lemma_first_present_from(root, keys, 0);
    if let Some(k) = first_present(root, keys, 0) {
        assert(table_lookup(root, keys[k]) is None);
    }
}

/// Every option the table gives under exactly one of its spellings, with a
/// value of its type, takes that value; every option it does not give keeps
/// its default (lines of 80, indentation 2, at most 2 blank lines, imports
/// sorted, no wrapping); spaces are collapsed where the table says so or
/// text is wrapped.
pub proof fn lemma_options_take_their_values(root: Seq<(String, TomlValue)>, c: Config)
    requires
        spec_format_config(root) == Ok::<Config, ConfigFault>(c),
    ensures
        forall|i: int, n: i64|
            given_once(
                root,
                seq!["max_width"@, "max-width"@, "line_width"@, "line-width"@],
                i,
                TomlValue::Integer(n),
            ) ==> c.max_width == n,
        not_given(root, seq!["max_width"@, "max-width"@, "line_width"@, "line-width"@])
            ==> c.max_width == 80,
        forall|i: int, n: i64|
            given_once(
                root,
                seq!["tab_spaces"@, "tab-spaces"@, "indent_width"@, "indent-width"@],
                i,
                TomlValue::Integer(n),
            ) ==> c.tab_spaces == n,
        not_given(root, seq!["tab_spaces"@, "tab-spaces"@, "indent_width"@, "indent-width"@])
            ==> c.tab_spaces == 2,
        forall|i: int, n: i64|
            given_once(
                root,
                seq!["blank_lines_upper_bound"@, "blank-lines-upper-bound"@],
                i,
                TomlValue::Integer(n),
            ) ==> c.blank_lines_upper_bound == n,
        not_given(root, seq!["blank_lines_upper_bound"@, "blank-lines-upper-bound"@])
            ==> c.blank_lines_upper_bound == 2,
        forall|i: int, b: bool|
            given_once(
                root,
                seq!["reorder_import_items"@, "reorder-import-items"@],
                i,
                TomlValue::Boolean(b),
            ) ==> c.reorder_import_items == b,
        not_given(root, seq!["reorder_import_items"@, "reorder-import-items"@])
            ==> c.reorder_import_items,
        forall|i: int, b: bool|
            given_once(root, seq!["wrap_text"@, "wrap-text"@], i, TomlValue::Boolean(b))
                ==> c.wrap_text == b,
        not_given(root, seq!["wrap_text"@, "wrap-text"@]) ==> !c.wrap_text,
        forall|i: int, b: bool|
            given_once(
                root,
                seq!["collapse_markup_spaces"@, "collapse-markup-spaces"@],
                i,
                TomlValue::Boolean(b),
            ) ==> c.collapse_markup_spaces == (b || c.wrap_text),
        not_given(root, seq!["collapse_markup_spaces"@, "collapse-markup-spaces"@])
            ==> c.collapse_markup_spaces == c.wrap_text,
{
    let k1 = max_width_keys();
    let k2 = tab_spaces_keys();
    let k3 = blank_lines_keys();
    let k4 = collapse_keys();
    let k5 = reorder_keys();
    let k6 = wrap_keys();
    assert forall|i: int, n: i64| given_once(root, k1, i, TomlValue::Integer(n)) implies c.max_width == n by {
        lemma_unique_given(root, k1, i, TomlValue::Integer(n));
    }
    assert(not_given(root, k1) ==> c.max_width == 80) by {
        if not_given(root, k1) {
            lemma_unique_absent(root, k1);
        }
    }
    assert forall|i: int, n: i64| given_once(root, k2, i, TomlValue::Integer(n)) implies c.tab_spaces == n by {
        lemma_unique_given(root, k2, i, TomlValue::Integer(n));
    }
    assert(not_given(root, k2) ==> c.tab_spaces == 2) by {
        if not_given(root, k2) {
            lemma_unique_absent(root, k2);
        }
    }
    assert forall|i: int, n: i64|
        given_once(root, k3, i, TomlValue::Integer(n)) implies c.blank_lines_upper_bound == n by {
        lemma_unique_given(root, k3, i, TomlValue::Integer(n));
    }
    assert(not_given(root, k3) ==> c.blank_lines_upper_bound == 2) by {
        if not_given(root, k3) {
            lemma_unique_absent(root, k3);
        }
    }
    assert forall|i: int, b: bool|
        given_once(root, k5, i, TomlValue::Boolean(b)) implies c.reorder_import_items == b by {
        lemma_unique_given(root, k5, i, TomlValue::Boolean(b));
    }
    assert(not_given(root, k5) ==> c.reorder_import_items) by {
        if not_given(root, k5) {
            lemma_unique_absent(root, k5);
        }
    }
    assert forall|i: int, b: bool| given_once(root, k6, i, TomlValue::Boolean(b)) implies c.wrap_text == b by {
        lemma_unique_given(root, k6, i, TomlValue::Boolean(b));
    }
    assert(not_given(root, k6) ==> !c.wrap_text) by {
        if not_given(root, k6) {
            lemma_unique_absent(root, k6);
        }
    }
    assert forall|i: int, b: bool|
        given_once(root, k4, i, TomlValue::Boolean(b)) implies c.collapse_markup_spaces == (b
            || c.wrap_text) by {
        lemma_unique_given(root, k4, i, TomlValue::Boolean(b));
        if not_given(root, k6) {
            lemma_unique_absent(root, k6);
        }
    }
    assert(not_given(root, k4) ==> c.collapse_markup_spaces == c.wrap_text) by {
        if not_given(root, k4) {
            lemma_unique_absent(root, k4);
            if not_given(root, k6) {
                lemma_unique_absent(root, k6);
            }
        }
    }
}

/// The formatting options of a configuration table.
pub fn parse_format_config(root: &Vec<(String, TomlValue)>) -> (res: Result<Config, ConfigError>)
    ensures
        result_view(res) == spec_format_config(root@),
{
    let mut config = Config::new();
    let keys: [&str; 4] = ["max_width", "max-width", "line_width", "line-width"];
    proof {
        assert(keys@.map_values(|k: &str| k@) =~= max_width_keys());
    }
    if let Some(max_width) = get_usize(root, &keys)? {
        config.max_width = max_width;
    }
    let keys: [&str; 4] = ["tab_spaces", "tab-spaces", "indent_width", "indent-width"];
    proof {
        assert(keys@.map_values(|k: &str| k@) =~= tab_spaces_keys());
    }
    if let Some(tab_spaces) = get_usize(root, &keys)? {
        config.tab_spaces = tab_spaces;
    }
    let keys: [&str; 2] = ["blank_lines_upper_bound", "blank-lines-upper-bound"];
    proof {
        assert(keys@.map_values(|k: &str| k@) =~= blank_lines_keys());
    }
    if let Some(blank_lines_upper_bound) = get_usize(root, &keys)? {
        config.blank_lines_upper_bound = blank_lines_upper_bound;
    }
    let keys: [&str; 2] = ["collapse_markup_spaces", "collapse-markup-spaces"];
    proof {
        assert(keys@.map_values(|k: &str| k@) =~= collapse_keys());
    }
    if let Some(collapse_markup_spaces) = get_bool(root, &keys)? {
        config.collapse_markup_spaces = collapse_markup_spaces;
    }
    let keys: [&str; 2] = ["reorder_import_items", "reorder-import-items"];
    proof {
        assert(keys@.map_values(|k: &str| k@) =~= reorder_keys());
    }
    if let Some(reorder_import_items) = get_bool(root, &keys)? {
        config.reorder_import_items = reorder_import_items;
    }
    let keys: [&str; 2] = ["wrap_text", "wrap-text"];
    proof {
        assert(keys@.map_values(|k: &str| k@) =~= wrap_keys());
    }
    if let Some(wrap_text) = get_bool(root, &keys)? {
        config.wrap_text = wrap_text;
        config.collapse_markup_spaces = config.collapse_markup_spaces || wrap_text;
    }
    Ok(config)
}


// ---------------------------------------------------------------------------
// Function hints

/// The hint one entry `[function-hints.<name>]` gives: its `kind`, a string
/// `table` or `grid`, and its `columns`, where an integer. A missing or
/// non-string kind comes first, then negative columns, then an unknown kind.
pub open spec fn spec_entry_hint(name: Seq<char>, entry: TomlValue) -> Result<FunctionHint, ConfigFault> {
    match value_lookup(entry, "kind"@) {
        Some(TomlValue::Str(kind)) => {
            let columns: Result<Option<usize>, ConfigFault> = match value_lookup(entry, "columns"@) {
                Some(TomlValue::Integer(n)) => if 0 <= n <= usize::MAX {
                    Ok(Some(n as usize))
                } else {
                    Err(ConfigFault::HintColumnsNegative(name))
                },
                _ => Ok(None),
            };
            match columns {
                Err(e) => Err(e),
                Ok(c) => if kind@ == "table"@ {
                    Ok(FunctionHint::TableLike(TableLikeHint { columns: c }))
                } else if kind@ == "grid"@ {
                    Ok(FunctionHint::GridLike(TableLikeHint { columns: c }))
                } else {
                    Err(ConfigFault::HintUnknownKind(name))
                },
            }
        },
        _ => Err(ConfigFault::HintKindNotString(name)),
    }
}

/// The hints of the entries, in order; the first bad entry is the error.
pub open spec fn spec_hints(entries: Seq<(String, TomlValue)>) -> Result<
    Seq<(Seq<char>, FunctionHint)>,
    ConfigFault,
>
    decreases entries.len(),
{
    if entries.len() == 0 {
        Ok(seq![])
    } else {
        match spec_hints(entries.drop_last()) {
            Err(e) => Err(e),
            Ok(hs) => match spec_entry_hint(entries.last().0@, entries.last().1) {
                Err(e) => Err(e),
                Ok(h) => Ok(hs.push((entries.last().0@, h))),
            },
        }
    }
}

/// The function hints of a configuration table: those of its table
/// `function-hints`, none where there is no such table.
pub open spec fn spec_format_facts(root: Seq<(String, TomlValue)>) -> Result<
    Seq<(Seq<char>, FunctionHint)>,
    ConfigFault,
> {
    match table_lookup(root, "function-hints"@) {
        Some(TomlValue::Table(entries)) => spec_hints(entries@),
        _ => Ok(seq![]),
    }
}

/// The facts are name hints for these names and hints, in order.
pub open spec fn facts_named(facts: Seq<FunctionFact>, hints: Seq<(Seq<char>, FunctionHint)>) -> bool {
    &&& facts.len() == hints.len()
    &&& forall|i: int|
        0 <= i < facts.len() ==> {
            &&& (#[trigger] facts[i]).callee_span is None
            &&& facts[i].callee_name matches Some(n) && n@ == hints[i].0
            &&& facts[i].hint == hints[i].1
        }
}

fn entry_hint(name: &String, entry: &TomlValue) -> (res: Result<FunctionHint, ConfigError>)
    ensures
        result_view(res) == spec_entry_hint(name@, *entry),
{
    let kind_key = "kind";
    let columns_key = "columns";
    let table = "table";
    let grid = "grid";
    proof {
        reveal_strlit("kind");
        reveal_strlit("columns");
        reveal_strlit("table");
        reveal_strlit("grid");
    }
    let kind = match value_get(entry, kind_key) {
        Some(TomlValue::Str(kind)) => kind,
        _ => {
            return Err(ConfigError::HintKindNotString(name.clone()));
        },
    };
    let columns = match value_get(entry, columns_key) {
        Some(TomlValue::Integer(n)) => {
            if *n < 0 || (*n as u64) > (usize::MAX as u64) {
                return Err(ConfigError::HintColumnsNegative(name.clone()));
            }
            Some(*n as usize)
        },
        _ => None,
    };
    if str_eq(kind.as_str(), table) {
        Ok(FunctionHint::table_like(columns))
    } else if str_eq(kind.as_str(), grid) {
        Ok(FunctionHint::grid_like(columns))
    } else {
        Err(ConfigError::HintUnknownKind(name.clone()))
    }
}

/// The function hints of a configuration table, as name facts.
pub fn parse_format_facts(root: &Vec<(String, TomlValue)>) -> (res: Result<FormatFacts, ConfigError>)
    ensures
        match (res, spec_format_facts(root@)) {
            (Ok(facts), Ok(hints)) => facts_named(facts@, hints),
            (Err(e), Err(fault)) => e@ == fault,
            _ => false,
        },
{
    let mut facts = FormatFacts::new();
    let key = "function-hints";
    proof {
        reveal_strlit("function-hints");
    }
    let entries = match table_get(root, key) {
        Some(TomlValue::Table(entries)) => entries,
        _ => {
            return Ok(facts);
        },
    };
    let mut k: usize = 0;
    while k < entries.len()
        invariant
            k <= entries@.len(),
            spec_format_facts(root@) == spec_hints(entries@),
            spec_hints(entries@.take(k as int)) matches Ok(hs) && facts_named(facts@, hs),
        decreases entries@.len() - k,
    {
        proof {
            assert(entries@.take(k + 1).drop_last() =~= entries@.take(k as int));
            assert(entries@.take(k + 1).last() == entries@[k as int]);
        }
        let (callee_name, entry) = &entries[k];
        let hint = match entry_hint(callee_name, entry) {
            Ok(hint) => hint,
            Err(e) => {
                proof {
                    assert(entries@[k as int].0 == *callee_name);
                    assert(spec_hints(entries@.take(k + 1)) == Err::<Seq<(Seq<char>, FunctionHint)>, ConfigFault>(e@));
                    lemma_hints_error_stays(entries@, k as int + 1);
                    assert(entries@.take(entries@.len() as int) =~= entries@);
                }
                return Err(e);
            },
        };
        let ghost before = facts@;
        facts.add_function_name_hint(callee_name.as_str(), hint);
        proof {
            let hs = spec_hints(entries@.take(k as int))->Ok_0;
            let hs2 = hs.push((callee_name@, hint));
            assert forall|i: int| 0 <= i < facts@.len() implies {
                &&& (#[trigger] facts@[i]).callee_span is None
                &&& facts@[i].callee_name matches Some(n) && n@ == hs2[i].0
                &&& facts@[i].hint == hs2[i].1
            } by {
                if i < before.len() {
                    assert(facts@[i] == facts@.drop_last()[i]);
                }
            }
        }
        k = k + 1;
    }
    proof {
        assert(entries@.take(entries@.len() as int) =~= entries@);
    }
    Ok(facts)
}

/// Once a prefix of the entries fails, all of them fail the same way.
proof fn lemma_hints_error_stays(entries: Seq<(String, TomlValue)>, n: int)
    requires
        0 <= n <= entries.len(),
        spec_hints(entries.take(n)) is Err,
    ensures
        spec_hints(entries) == spec_hints(entries.take(n)),
    decreases entries.len() - n,
{
    if n < entries.len() {
        assert(entries.take(n + 1).drop_last() =~= entries.take(n));
        lemma_hints_error_stays(entries, n + 1);
    } else {
        assert(entries.take(n) =~= entries);
    }
}

/// `res` is what the configuration table `root` gives: its options and the
/// facts its function hints become, or the first error, one in the options
/// before one in the hints.
pub open spec fn project_from_table(
    res: Result<ProjectConfig, ConfigError>,
    root: Seq<(String, TomlValue)>,
) -> bool {
    match res {
        Ok(project) => {
            &&& spec_format_config(root) == Ok::<Config, ConfigFault>(project.config)
            &&& spec_format_facts(root) matches Ok(hints)
            &&& facts_named(project.facts@, hints)
        },
        Err(e) => match spec_format_config(root) {
            Err(fault) => e@ == fault,
            Ok(_) => spec_format_facts(root) matches Err(fault) && e@ == fault,
        },
    }
}

/// The options and function hints of a configuration table.
pub fn parse_typstyle_toml_config(root: &Vec<(String, TomlValue)>) -> (res: Result<
    ProjectConfig,
    ConfigError,
>)
    ensures
        project_from_table(res, root@),
{
    let config = parse_format_config(root)?;
    let facts = parse_format_facts(root)?;
    Ok(ProjectConfig { config, facts })
}

// ---------------------------------------------------------------------------
// The text of the file

#[verifier::external_type_specification]
#[verifier::external_body]
pub struct ExTomlValue(toml::Value);

/// Names what `toml` makes of a text as a TOML document: its top-level
/// table, each value in the model above and the keys of every table in the
/// order in which `toml`'s table walks them; or, where the text is not a
/// TOML document, what the parser's error says.
pub uninterp spec fn toml_document(text: Seq<char>) -> Result<Seq<(String, TomlValue)>, Seq<char>>;

/// A parsed document, or a parser's message, as values.
pub open spec fn document_view(res: Result<Vec<(String, TomlValue)>, String>) -> Result<
    Seq<(String, TomlValue)>,
    Seq<char>,
> {
    match res {
        Ok(root) => Ok(root@),
        Err(m) => Err(m@),
    }
}

/// The model of a value that `toml` parsed: each kind of value to its own,
/// the entries of a table in the order in which `toml`'s table walks them,
/// and floats, dates and arrays, which the configuration does not read, to
/// `Other`. It only converts; nothing is claimed of it but through
/// `parse_toml_document`, whose result it makes.
#[verifier::external_body]
fn toml_value_model(value: toml::Value) -> (res: TomlValue) {
    match value {
        toml::Value::String(s) => TomlValue::Str(s),
        toml::Value::Integer(n) => TomlValue::Integer(n),
        toml::Value::Boolean(b) => TomlValue::Boolean(b),
        toml::Value::Table(t) => TomlValue::Table(t.into_iter().map(|(k, v)| (k, toml_value_model(v))).collect()),
        toml::Value::Float(_) => TomlValue::Other,
        toml::Value::Datetime(_) => TomlValue::Other,
        toml::Value::Array(_) => TomlValue::Other,
    }
}

/// Calls `toml::from_str::<toml::Table>`, which parses a text as a TOML
/// document into its top-level table, and converts that table's entries into
/// the model above (in the order in which the table walks its keys, sorted,
/// as `toml` is built without `preserve_order`), or the parser's error into
/// its message. The parse depends on the text alone, so the result is named
/// by `toml_document`; nothing more is claimed of it.
#[verifier::external_body]
fn parse_toml_document(text: &str) -> (res: Result<Vec<(String, TomlValue)>, String>)
    ensures
        toml_document(text@) == document_view(res),
{
    match toml::from_str::<toml::Table>(text) {
        Ok(t) => Ok(t.into_iter().map(|(k, v)| (k, toml_value_model(v))).collect()),
        Err(e) => Err(e.to_string()),
    }
}

/// The options and function hints of the text of a `typstyle.toml`: an
/// error with the parser's message where the text is not a TOML document,
/// else what its top-level table gives.
pub fn parse_typstyle_toml_text(content: &str) -> (res: Result<ProjectConfig, ConfigError>)
    ensures
        match toml_document(content@) {
            Err(m) => res matches Err(e) && e@ == ConfigFault::Syntax(m),
            Ok(root) => project_from_table(res, root),
        },
{
    match parse_toml_document(content) {
        Err(m) => Err(ConfigError::Syntax(m)),
        Ok(root) => parse_typstyle_toml_config(&root),
    }
}

// ---------------------------------------------------------------------------
// Messages

/// What a configuration error says.
pub open spec fn fault_message(fault: ConfigFault) -> Seq<char> {
    match fault {
        ConfigFault::KeyConflict(a, b) => a + " conflicts with "@ + b,
        ConfigFault::NotInteger(k) => k + " must be an integer"@,
        ConfigFault::NotNonNegative(k) => k + " must be non-negative"@,
        ConfigFault::NotBoolean(k) => k + " must be a boolean"@,
        ConfigFault::HintKindNotString(n) => "function-hints."@ + n + ".kind must be a string"@,
        ConfigFault::HintColumnsNegative(n) => "function-hints."@ + n
            + ".columns must be non-negative"@,
        ConfigFault::HintUnknownKind(n) => "function-hints."@ + n
            + ".kind must be `table` or `grid`"@,
        ConfigFault::Syntax(m) => m,
    }
}

impl ConfigError {
    /// What the error says.
    pub fn message(&self) -> (res: String)
        ensures
            res@ == fault_message(self@),
    {
        match self {
            ConfigError::KeyConflict(a, b) => {
                let mut m = a.clone();
                m.append(" conflicts with ");
                m.append(b.as_str());
                m
            },
            ConfigError::NotInteger(k) => {
                let mut m = k.clone();
                m.append(" must be an integer");
                m
            },
            ConfigError::NotNonNegative(k) => {
                let mut m = k.clone();
                m.append(" must be non-negative");
                m
            },
            ConfigError::NotBoolean(k) => {
                let mut m = k.clone();
                m.append(" must be a boolean");
                m
            },
            ConfigError::HintKindNotString(n) => {
                let mut m = "function-hints.".to_owned();
                m.append(n.as_str());
                m.append(".kind must be a string");
                m
            },
            ConfigError::HintColumnsNegative(n) => {
                let mut m = "function-hints.".to_owned();
                m.append(n.as_str());
                m.append(".columns must be non-negative");
                m
            },
            ConfigError::HintUnknownKind(n) => {
                let mut m = "function-hints.".to_owned();
                m.append(n.as_str());
                m.append(".kind must be `table` or `grid`");
                m
            },
            ConfigError::Syntax(m) => m.clone(),
        }
    }
}

} // verus!
