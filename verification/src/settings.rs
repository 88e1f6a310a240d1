//! The stored form of a configuration.
//!
//! A configuration is kept as a TOML document: `name` and `port` at the
//! top, and one table for each module. A table with `ip` and `port` is a
//! sync, whose `path` may be left out and is then the name of the module;
//! any other table must have a `path` and is a share. Reading and writing
//! TOML is left to the `toml` crate. What a document means is decided here,
//! on a plain picture of it.

use crate::config::{
    distinct, index_of, Config, ConfigView, Root, RootShare, RootSync, SyncView, DEFAULT_PORT,
};
use crate::error::ErrorKind;
use crate::path::{chars_of, same_text};
use toml::Value;
use vstd::prelude::*;
use vstd::string::*;

verus! {

/// A value in the table of a module.
#[derive(Debug, PartialEq, Eq)]
pub enum Field {
    /// A string.
    Text(String),
    /// An integer.
    Number(i64),
    /// Anything else.
    Other,
}

/// A value in the table of a module, with strings as texts.
pub enum FieldView {
    Text(Seq<char>),
    Number(i64),
    Other,
}

impl View for Field {
    type V = FieldView;

    open spec fn view(&self) -> FieldView {
        match self {
            Field::Text(s) => FieldView::Text(s@),
            Field::Number(n) => FieldView::Number(*n),
            Field::Other => FieldView::Other,
        }
    }
}

/// The keys and values of a table, with strings as texts.
pub open spec fn field_views(fields: Seq<(String, Field)>) -> Seq<(Seq<char>, FieldView)> {
    Seq::new(fields.len(), |i: int| (fields[i].0@, fields[i].1@))
}

/// A value at the top of a document.
#[derive(Debug, PartialEq, Eq)]
pub enum Setting {
    /// A string.
    Text(String),
    /// An integer.
    Number(i64),
    /// A table, as its keys and values in the order of the document.
    Table(Vec<(String, Field)>),
    /// Anything else.
    Other,
}

/// A value at the top of a document, with strings as texts.
pub enum SettingView {
    Text(Seq<char>),
    Number(i64),
    Table(Seq<(Seq<char>, FieldView)>),
    Other,
}

impl View for Setting {
    type V = SettingView;

    open spec fn view(&self) -> SettingView {
        match self {
            Setting::Text(s) => SettingView::Text(s@),
            Setting::Number(n) => SettingView::Number(*n),
            Setting::Table(fields) => SettingView::Table(field_views(fields@)),
            Setting::Other => SettingView::Other,
        }
    }
}

/// The keys and values of a document, with strings as texts.
pub open spec fn setting_views(settings: Seq<(String, Setting)>) -> Seq<(Seq<char>, SettingView)> {
    Seq::new(settings.len(), |i: int| (settings[i].0@, settings[i].1@))
}

/// A module of either kind, with strings as texts.
pub enum RootView {
    Share { path: Seq<char> },
    Sync(SyncView),
}

impl View for Root {
    type V = RootView;

    open spec fn view(&self) -> RootView {
        match self {
            Root::Share(share) => RootView::Share { path: share.path@ },
            Root::Sync(sync) => RootView::Sync(sync@),
        }
    }
}

/// The key `ip`.
pub open spec fn ip_key() -> Seq<char> {
    seq!['i', 'p']
}

/// The key `port`.
pub open spec fn port_key() -> Seq<char> {
    seq!['p', 'o', 'r', 't']
}

/// The key `path`.
pub open spec fn path_key() -> Seq<char> {
    seq!['p', 'a', 't', 'h']
}

/// The key `name`.
pub open spec fn name_key() -> Seq<char> {
    seq!['n', 'a', 'm', 'e']
}

/// The name of a peer whose configuration names none: `no name`.
pub open spec fn default_name() -> Seq<char> {
    seq!['n', 'o', ' ', 'n', 'a', 'm', 'e']
}

/// The value under `key` in a table: that of the first entry with this
/// key.
pub open spec fn find_field(fields: Seq<(Seq<char>, FieldView)>, key: Seq<char>) -> Option<
    FieldView,
>
    decreases fields.len(),
{
    if fields.len() == 0 {
        None
    } else if fields[0].0 == key {
        Some(fields[0].1)
    } else {
        find_field(fields.drop_first(), key)
    }
}

/// The module that the table of the name `name` describes.
///
/// A table with `ip` and `port` is a sync: `ip` must be a string, `port`
/// an integer, of which the low 16 bits are taken, and `path`, if it is
/// there, a string; without it the copy lies at `name`. A table without
/// them is a share and must have a string `path`. Any other table makes
/// the document invalid.
pub open spec fn table_root(fields: Seq<(Seq<char>, FieldView)>, name: Seq<char>) -> Result<
    RootView,
    ErrorKind,
> {
    let ip = find_field(fields, ip_key());
    let port = find_field(fields, port_key());
    let path = find_field(fields, path_key());
    if ip is Some && port is Some {
        match (ip, port, path) {
            (Some(FieldView::Text(ip)), Some(FieldView::Number(n)), None) => Ok(
                RootView::Sync(SyncView { ip, port: n as u16, path: name }),
            ),
            (
                Some(FieldView::Text(ip)),
                Some(FieldView::Number(n)),
                Some(FieldView::Text(path)),
            ) => Ok(RootView::Sync(SyncView { ip, port: n as u16, path })),
            _ => Err(ErrorKind::InvalidData),
        }
    } else {
        match path {
            Some(FieldView::Text(path)) => Ok(RootView::Share { path }),
            _ => Err(ErrorKind::InvalidData),
        }
    }
}

/// The configuration of a peer whose document is empty.
pub open spec fn default_config() -> ConfigView {
    ConfigView {
        name: default_name(),
        port: DEFAULT_PORT,
        shares: Map::empty(),
        syncs: Map::empty(),
    }
}

/// What one entry of a document adds to a configuration: a string `name`
/// names the peer; an integer `port`, of which the low 16 bits are taken,
/// is its port; a table is a module under its key; anything else says
/// nothing.
pub open spec fn apply_setting(c: ConfigView, key: Seq<char>, value: SettingView) -> Result<
    ConfigView,
    ErrorKind,
> {
    if key == name_key() && value is Text {
        Ok(ConfigView { name: value->Text_0, ..c })
    } else if key == port_key() && value is Number {
        Ok(ConfigView { port: value->Number_0 as u16, ..c })
    } else if value is Table {
        match table_root(value->Table_0, key) {
            Ok(RootView::Share { path }) => Ok(
                ConfigView { shares: c.shares.insert(key, path), ..c },
            ),
            Ok(RootView::Sync(sync)) => Ok(ConfigView { syncs: c.syncs.insert(key, sync), ..c }),
            Err(e) => Err(e),
        }
    } else {
        Ok(c)
    }
}

/// The configuration that a document describes: what its entries add, one
/// after the other, to the configuration of the empty document. A table
/// that describes no module makes the whole document invalid.
pub open spec fn document_config(settings: Seq<(Seq<char>, SettingView)>) -> Result<
    ConfigView,
    ErrorKind,
>
    decreases settings.len(),
{
    if settings.len() == 0 {
        Ok(default_config())
    } else {
        match document_config(settings.drop_last()) {
            Ok(c) => apply_setting(c, settings.last().0, settings.last().1),
            Err(e) => Err(e),
        }
    }
}

/// The value under `key` in a table.
pub fn get_field<'a>(fields: &'a Vec<(String, Field)>, key: &str) -> (res: Option<&'a Field>)
    ensures
        match res {
            Some(field) => find_field(field_views(fields@), key@) == Some(field@),
            None => find_field(field_views(fields@), key@) is None,
        },
{
    let ghost all = field_views(fields@);
    let mut i: usize = 0;
    assert(all.skip(0) =~= all);
    while i < fields.len()
        invariant
            i <= fields.len(),
            all == field_views(fields@),
            find_field(all, key@) == find_field(all.skip(i as int), key@),
        decreases fields.len() - i,
    {
        proof {
            assert(all.skip(i as int).drop_first() =~= all.skip(i + 1));
            assert(all.skip(i as int)[0] == all[i as int]);
        }
        if same_text(fields[i].0.as_str(), key) {
            return Some(&fields[i].1);
        }
        i += 1;
    }
    None
}

/// The module that the table of the name `name` describes.
pub fn parse_table(fields: &Vec<(String, Field)>, name: String) -> (res: Result<Root, ErrorKind>)
    ensures
        match table_root(field_views(fields@), name@) {
            Ok(root) => res matches Ok(r) && r@ == root,
            Err(e) => res matches Err(f) && f == e,
        },
{
    proof {
        reveal_strlit("ip");
        reveal_strlit("port");
        reveal_strlit("path");
        assert("ip"@ =~= ip_key());
        assert("port"@ =~= port_key());
        assert("path"@ =~= path_key());
    }
    let ip = get_field(fields, "ip");
    let port = get_field(fields, "port");
    let path = get_field(fields, "path");
    if ip.is_some() && port.is_some() {
        match (ip, port, path) {
            (Some(Field::Text(ip)), Some(Field::Number(n)), None) => Ok(
                Root::Sync(RootSync { ip: ip.clone(), port: *n as u16, path: name }),
            ),
            (Some(Field::Text(ip)), Some(Field::Number(n)), Some(Field::Text(path))) => Ok(
                Root::Sync(RootSync { ip: ip.clone(), port: *n as u16, path: path.clone() }),
            ),
            _ => Err(ErrorKind::InvalidData),
        }
    } else {
        match path {
            Some(Field::Text(path)) => Ok(Root::Share(RootShare { path: path.clone() })),
            _ => Err(ErrorKind::InvalidData),
        }
    }
}

/// The configuration that a document describes.
pub fn config_from(settings: &Vec<(String, Setting)>) -> (res: Result<Config, ErrorKind>)
    ensures
        match document_config(setting_views(settings@)) {
            Ok(c) => res matches Ok(config) && config@ == c && config.wf(),
            Err(e) => res matches Err(f) && f == e,
        },
{
    proof {
        reveal_strlit("no name");
        reveal_strlit("name");
        reveal_strlit("port");
        assert("no name"@ =~= default_name());
        assert("name"@ =~= name_key());
        assert("port"@ =~= port_key());
    }
    let ghost all = setting_views(settings@);
    let mut config = Config::new("no name".to_owned(), DEFAULT_PORT);
    let mut i: usize = 0;
    assert(all.take(0) =~= Seq::empty());
    while i < settings.len()
        invariant
            i <= settings.len(),
            all == setting_views(settings@),
            config.wf(),
            document_config(all.take(i as int)) == Ok::<ConfigView, ErrorKind>(config@),
            "name"@ == name_key(),
            "port"@ == port_key(),
        decreases settings.len() - i,
    {
        let key = &settings[i].0;
        let value = &settings[i].1;
        proof {
            assert(all.take(i + 1).drop_last() =~= all.take(i as int));
            assert(all.take(i + 1).last() == (key@, value@));
        }
        let ghost before = config@;
        match value {
            Setting::Text(s) => {
                if same_text(key.as_str(), "name") {
                    config.name = s.clone();
                }
            },
            Setting::Number(n) => {
                if same_text(key.as_str(), "port") {
                    config.port = *n as u16;
                }
            },
            Setting::Table(fields) => {
                match parse_table(fields, key.clone()) {
                    Ok(Root::Share(share)) => {
                        config.add_share(key.clone(), share);
                    },
                    Ok(Root::Sync(sync)) => {
                        config.add_sync(key.clone(), sync);
                    },
                    Err(e) => {
                        proof {
                            lemma_invalid_stays(all, i + 1);
                        }
                        return Err(e);
                    },
                }
            },
            Setting::Other => {},
        }
        assert(apply_setting(before, key@, value@) == Ok::<ConfigView, ErrorKind>(config@));
        i += 1;
    }
    assert(all.take(i as int) =~= all);
    Ok(config)
}

/// A document with an invalid beginning is invalid.
pub proof fn lemma_invalid_stays(settings: Seq<(Seq<char>, SettingView)>, n: int)
    requires
        0 <= n <= settings.len(),
        document_config(settings.take(n)) is Err,
    ensures
        document_config(settings) == document_config(settings.take(n)),
    decreases settings.len() - n,
{
    if n < settings.len() {
        assert(settings.take(n + 1).drop_last() =~= settings.take(n));
        lemma_invalid_stays(settings, n + 1);
    } else {
        assert(settings.take(n) =~= settings);
    }
}

/// What a scan of a text has counted: the opening brackets `[` and `{`
/// of the whole text, the dots of its last line, and the most dots that
/// any one of its lines holds.
pub struct Marks {
    pub brackets: nat,
    pub dots_here: nat,
    pub dots_most: nat,
}

/// The marks of `text`.
pub open spec fn marks(text: Seq<char>) -> Marks
    decreases text.len(),
{
    if text.len() == 0 {
        Marks { brackets: 0, dots_here: 0, dots_most: 0 }
    } else {
        let m = marks(text.drop_last());
        let c = text.last();
        if c == '\n' {
            Marks { dots_here: 0, ..m }
        } else if c == '.' {
            Marks {
                dots_here: m.dots_here + 1,
                dots_most: if m.dots_here + 1 > m.dots_most {
                    m.dots_here + 1
                } else {
                    m.dots_most
                },
                ..m
            }
        } else if c == '[' || c == '{' {
            Marks { brackets: m.brackets + 1, ..m }
        } else {
            m
        }
    }
}

/// A bound on how deep the values of a TOML document are nested. Arrays
/// and inline tables nest no deeper than there are opening brackets.
/// Tables nest through dotted names, which stand on one line each: the
/// name of a table, and below it the name of a key; and within one line a
/// name that follows another stands behind a bracket.
pub open spec fn nesting_bound(text: Seq<char>) -> nat {
    2 * (marks(text).brackets + marks(text).dots_most + 1)
}

/// The deepest nesting of a document that is read.
pub const MAX_NESTING: usize = 256;

/// The picture of the TOML document `text`: the keys and values of its
/// top table, in the order of the keys; nothing where `text` is no TOML
/// document.
pub uninterp spec fn toml_document(text: Seq<char>) -> Option<Seq<(Seq<char>, SettingView)>>;

/// The TOML text of the document with these keys and values at its top;
/// nothing where the `toml` crate cannot write such a document.
pub uninterp spec fn toml_text(settings: Seq<(Seq<char>, SettingView)>) -> Option<Seq<char>>;

/// `str::parse::<toml::Value>`, which reads a TOML document, and the
/// picture of what it gave: strings, integers and tables as they are, with
/// everything else as `Other`. The parser calls itself once for each level
/// of nesting and has no limit of its own, so a text that may be nested
/// deeper than `MAX_NESTING` is left out.
#[verifier::external_body]
fn parse_document(text: &str) -> (res: Option<Vec<(String, Setting)>>)
    requires
        nesting_bound(text@) <= MAX_NESTING,
    ensures
        match res {
            Some(settings) => toml_document(text@) == Some(setting_views(settings@)),
            None => toml_document(text@) is None,
        },
{
    let top = match text.parse::<Value>() { Ok(Value::Table(t)) => t, _ => return None };
    Some(top.into_iter().map(|(key, value)| (key, match value {
        Value::String(s) => Setting::Text(s),
        Value::Integer(n) => Setting::Number(n),
        Value::Table(t) => Setting::Table(t.into_iter().map(|(k, v)| (k, match v {
            Value::String(s) => Field::Text(s),
            Value::Integer(n) => Field::Number(n),
            _ => Field::Other,
        })).collect()),
        _ => Setting::Other,
    })).collect())
}

/// Whether a document holds only what can be written: strings, integers,
/// and tables of strings and integers.
pub open spec fn writable(settings: Seq<(Seq<char>, SettingView)>) -> bool {
    forall|i: int|
        0 <= i < settings.len() ==> match (#[trigger] settings[i]).1 {
            SettingView::Other => false,
            SettingView::Table(fields) => forall|j: int|
                0 <= j < fields.len() ==> !((#[trigger] fields[j]).1 is Other),
            _ => true,
        }
}

/// `toml::to_string` on the table that the document is the picture of.
/// Where a key occurs twice the later entry counts.
#[verifier::external_body]
fn render_document(settings: &Vec<(String, Setting)>) -> (res: Option<String>)
    requires
        writable(setting_views(settings@)),
    ensures
        match res {
            Some(text) => toml_text(setting_views(settings@)) == Some(text@),
            None => toml_text(setting_views(settings@)) is None,
        },
{
    let top = settings.iter().map(|(key, value)| (key.clone(), match value {
        Setting::Text(s) => Value::String(s.clone()),
        Setting::Number(n) => Value::Integer(*n),
        Setting::Table(t) => Value::Table(t.iter().map(|(k, v)| (k.clone(), match v {
            Field::Text(s) => Value::String(s.clone()),
            Field::Number(n) => Value::Integer(*n),
            Field::Other => Value::Boolean(false),
        })).collect()),
        Setting::Other => Value::Boolean(false),
    })).collect();
    toml::to_string(&Value::Table(top)).ok()
}

/// Whether `text` is nested no deeper than is read.
pub fn shallow(text: &str) -> (res: bool)
    ensures
        res == (nesting_bound(text@) <= MAX_NESTING),
{
    let chars = chars_of(text);
    let mut brackets: usize = 0;
    let mut dots_here: usize = 0;
    let mut dots_most: usize = 0;
    let mut i: usize = 0;
    assert(chars@.take(0) =~= Seq::<char>::empty());
    while i < chars.len()
        invariant
            i <= chars.len(),
            brackets == marks(chars@.take(i as int)).brackets,
            dots_here == marks(chars@.take(i as int)).dots_here,
            dots_most == marks(chars@.take(i as int)).dots_most,
            brackets <= i,
            dots_here <= i,
            dots_most <= i,
        decreases chars.len() - i,
    {
        assert(chars@.take(i + 1).drop_last() =~= chars@.take(i as int));
        let c = chars[i];
        if c == '\n' {
            dots_here = 0;
        } else if c == '.' {
            dots_here += 1;
            if dots_here > dots_most {
                dots_most = dots_here;
            }
        } else if c == '[' || c == '{' {
            brackets += 1;
        }
        i += 1;
    }
    assert(chars@.take(i as int) =~= chars@);
    brackets < MAX_NESTING / 2 && dots_most < MAX_NESTING / 2 && brackets + dots_most + 1
        <= MAX_NESTING / 2
}

/// The configuration that the document `settings` describes, if `text`
/// is a document with these settings; any other text is invalid.
pub open spec fn text_config(document: Option<Seq<(Seq<char>, SettingView)>>) -> Result<
    ConfigView,
    ErrorKind,
> {
    match document {
        Some(settings) => document_config(settings),
        None => Err(ErrorKind::InvalidData),
    }
}

/// Reads a configuration from the text of its stored form.
///
/// A text that is no TOML document, a document with a table that
/// describes no module, and a text that may be nested deeper than is read
/// are invalid.
pub fn load_config(text: &str) -> (res: Result<Config, ErrorKind>)
    ensures
        match (if nesting_bound(text@) <= MAX_NESTING {
            text_config(toml_document(text@))
        } else {
            Err(ErrorKind::InvalidData)
        }) {
            Ok(c) => res matches Ok(config) && config@ == c && config.wf(),
            Err(e) => res matches Err(f) && f == e,
        },
{
    if !shallow(text) {
        return Err(ErrorKind::InvalidData);
    }
    match parse_document(text) {
        Some(settings) => config_from(&settings),
        None => Err(ErrorKind::InvalidData),
    }
}

/// The table that stands for a share.
pub open spec fn share_table(path: Seq<char>) -> SettingView {
    SettingView::Table(seq![(path_key(), FieldView::Text(path))])
}

/// The table that stands for a sync.
pub open spec fn sync_table(sync: SyncView) -> SettingView {
    SettingView::Table(
        seq![
            (ip_key(), FieldView::Text(sync.ip)),
            (port_key(), FieldView::Number(sync.port as i64)),
            (path_key(), FieldView::Text(sync.path)),
        ],
    )
}

/// The document in which a configuration is stored: its name and port,
/// a table for each share, and after them a table for each sync.
pub open spec fn config_document(config: &Config) -> Seq<(Seq<char>, SettingView)> {
    seq![
        (name_key(), SettingView::Text(config.name@)),
        (port_key(), SettingView::Number(config.port as i64)),
    ] + Seq::new(
        config.shares.names().len(),
        |i: int| (config.shares.names()[i]@, share_table(config.shares.values()[i].path@)),
    ) + Seq::new(
        config.syncs.names().len(),
        |i: int| (config.syncs.names()[i]@, sync_table(config.syncs.values()[i]@)),
    )
}

/// The document in which `config` is stored.
pub fn settings_of(config: &Config) -> (res: Vec<(String, Setting)>)
    requires
        config.wf(),
    ensures
        setting_views(res@) == config_document(config),
        writable(setting_views(res@)),
{
    proof {
        reveal_strlit("name");
        reveal_strlit("port");
        reveal_strlit("ip");
        reveal_strlit("path");
        assert("name"@ =~= name_key());
        assert("port"@ =~= port_key());
        assert("ip"@ =~= ip_key());
        assert("path"@ =~= path_key());
    }
    let mut res: Vec<(String, Setting)> = Vec::new();
    res.push(("name".to_owned(), Setting::Text(config.name.clone())));
    res.push(("port".to_owned(), Setting::Number(config.port as i64)));
    let ghost head = setting_views(res@);
    let ghost shares = Seq::new(
        config.shares.names().len(),
        |i: int| (config.shares.names()[i]@, share_table(config.shares.values()[i].path@)),
    );
    let ghost syncs = Seq::new(
        config.syncs.names().len(),
        |i: int| (config.syncs.names()[i]@, sync_table(config.syncs.values()[i]@)),
    );
    let mut i: usize = 0;
    assert(setting_views(res@) =~= head + shares.take(0));
    while i < config.shares.len()
        invariant
            i <= config.shares.names().len(),
            config.wf(),
            setting_views(res@) == head + shares.take(i as int),
            writable(setting_views(res@)),
            shares == Seq::new(
                config.shares.names().len(),
                |i: int| (config.shares.names()[i]@, share_table(config.shares.values()[i].path@)),
            ),
            "path"@ == path_key(),
        decreases config.shares.names().len() - i,
    {
        let (name, share) = config.shares.entry(i);
        let mut fields: Vec<(String, Field)> = Vec::new();
        fields.push(("path".to_owned(), Field::Text(share.path.clone())));
        assert(field_views(fields@) =~= seq![(path_key(), FieldView::Text(share.path@))]);
        let ghost before = setting_views(res@);
        res.push((name.clone(), Setting::Table(fields)));
        assert(setting_views(res@) =~= before.push(shares[i as int]));
        assert(head + shares.take(i + 1) =~= (head + shares.take(i as int)).push(shares[i as int]));
        i += 1;
    }
    assert(shares.take(i as int) =~= shares);
    let ghost mid = setting_views(res@);
    let mut j: usize = 0;
    assert(setting_views(res@) =~= mid + syncs.take(0));
    while j < config.syncs.len()
        invariant
            j <= config.syncs.names().len(),
            config.wf(),
            setting_views(res@) == mid + syncs.take(j as int),
            writable(setting_views(res@)),
            syncs == Seq::new(
                config.syncs.names().len(),
                |i: int| (config.syncs.names()[i]@, sync_table(config.syncs.values()[i]@)),
            ),
            "path"@ == path_key(),
            "ip"@ == ip_key(),
            "port"@ == port_key(),
        decreases config.syncs.names().len() - j,
    {
        let (name, sync) = config.syncs.entry(j);
        let mut fields: Vec<(String, Field)> = Vec::new();
        fields.push(("ip".to_owned(), Field::Text(sync.ip.clone())));
        fields.push(("port".to_owned(), Field::Number(sync.port as i64)));
        fields.push(("path".to_owned(), Field::Text(sync.path.clone())));
        assert(field_views(fields@) =~= sync_table(sync@)->Table_0);
        let ghost before = setting_views(res@);
        res.push((name.clone(), Setting::Table(fields)));
        assert(setting_views(res@) =~= before.push(syncs[j as int]));
        assert(mid + syncs.take(j + 1) =~= (mid + syncs.take(j as int)).push(syncs[j as int]));
        j += 1;
    }
    assert(syncs.take(j as int) =~= syncs);
    assert(setting_views(res@) =~= config_document(config));
    res
}

/// The text in which `config` is stored; nothing where the `toml` crate
/// cannot write it.
pub fn store_config(config: &Config) -> (res: Option<String>)
    requires
        config.wf(),
    ensures
        match res {
            Some(text) => toml_text(config_document(config)) == Some(text@),
            None => toml_text(config_document(config)) is None,
        },
{
    let settings = settings_of(config);
    render_document(&settings)
}

/// What the entries of `settings` add, one after the other, to a
/// configuration that may have failed already.
pub open spec fn apply_all(
    start: Result<ConfigView, ErrorKind>,
    settings: Seq<(Seq<char>, SettingView)>,
) -> Result<ConfigView, ErrorKind>
    decreases settings.len(),
{
    if settings.len() == 0 {
        start
    } else {
        match apply_all(start, settings.drop_last()) {
            Ok(c) => apply_setting(c, settings.last().0, settings.last().1),
            Err(e) => Err(e),
        }
    }
}

proof fn lemma_apply_all_is_document_config(settings: Seq<(Seq<char>, SettingView)>)
    ensures
        document_config(settings) == apply_all(Ok(default_config()), settings),
    decreases settings.len(),
{
    if settings.len() > 0 {
        lemma_apply_all_is_document_config(settings.drop_last());
    }
}

proof fn lemma_apply_all_concat(
    start: Result<ConfigView, ErrorKind>,
    a: Seq<(Seq<char>, SettingView)>,
    b: Seq<(Seq<char>, SettingView)>,
)
    ensures
        apply_all(start, a + b) == apply_all(apply_all(start, a), b),
    decreases b.len(),
{
    if b.len() == 0 {
        assert(a + b =~= a);
    } else {
        assert((a + b).drop_last() =~= a + b.drop_last());
        lemma_apply_all_concat(start, a, b.drop_last());
    }
}

proof fn lemma_port_survives(port: u16)
    by (bit_vector)
    ensures
        (port as i64) as u16 == port,
{
}

/// In a list of distinct names, each name is found at its own index.
proof fn lemma_index_of_distinct(names: Seq<String>, i: int)
    requires
        distinct(names),
        0 <= i < names.len(),
    ensures
        index_of(names, names[i]@) == Some(i),
{
    let found = index_of(names, names[i]@)->0;
    assert(names[found]@ == names[i]@);
}

proof fn lemma_tables_are_modules(path: Seq<char>, sync: SyncView, name: Seq<char>)
    ensures
        table_root(share_table(path)->Table_0, name) == Ok::<RootView, ErrorKind>(
            RootView::Share { path },
        ),
        table_root(sync_table(sync)->Table_0, name) == Ok::<RootView, ErrorKind>(
            RootView::Sync(sync),
        ),
{
    reveal_with_fuel(find_field, 4);
    lemma_port_survives(sync.port);
    assert(ip_key() != path_key()) by {
        assert(ip_key().len() != path_key().len());
    }
    assert(ip_key() != port_key()) by {
        assert(ip_key().len() != port_key().len());
    }
    assert(port_key() != path_key()) by {
        assert(port_key()[1] != path_key()[1]);
    }
}

proof fn lemma_shares_read_back(config: &Config, start: ConfigView, k: int)
    requires
        config.wf(),
        0 <= k <= config.shares.names().len(),
    ensures
        apply_all(
            Ok(start),
            Seq::new(
                config.shares.names().len(),
                |i: int| (config.shares.names()[i]@, share_table(config.shares.values()[i].path@)),
            ).take(k),
        ) matches Ok(c) && c.name == start.name && c.port == start.port && c.syncs == start.syncs
            && c.shares.dom() =~= start.shares.dom().union(
            Set::new(|key: Seq<char>| exists|i: int| 0 <= i < k && config.shares.names()[i]@ == key),
        ) && (forall|i: int|
            0 <= i < k ==> c.shares[config.shares.names()[i]@]
                == config.shares.values()[i].path@) && (forall|key: Seq<char>|
            start.shares.dom().contains(key) && !(exists|i: int|
                0 <= i < k && config.shares.names()[i]@ == key) ==> c.shares[key]
                == start.shares[key]),
    decreases k,
{
    let names = config.shares.names();
    let all = Seq::new(
        names.len(),
        |i: int| (names[i]@, share_table(config.shares.values()[i].path@)),
    );
    if k > 0 {
        lemma_shares_read_back(config, start, k - 1);
        assert(all.take(k).drop_last() =~= all.take(k - 1));
        let before = apply_all(Ok(start), all.take(k - 1))->Ok_0;
        let key = names[k - 1]@;
        let path = config.shares.values()[k - 1].path@;
        lemma_tables_are_modules(path, SyncView { ip: seq![], port: 0, path: seq![] }, key);
        let after = apply_all(Ok(start), all.take(k))->Ok_0;
        assert(after.shares == before.shares.insert(key, path));
        assert forall|i: int| 0 <= i < k implies after.shares[names[i]@]
            == config.shares.values()[i].path@ by {
            if i < k - 1 {
                assert(names[i]@ != names[k - 1]@);
            }
        }
    } else {
        assert(all.take(0) =~= Seq::empty());
    }
}

proof fn lemma_syncs_read_back(config: &Config, start: ConfigView, k: int)
    requires
        config.wf(),
        0 <= k <= config.syncs.names().len(),
    ensures
        apply_all(
            Ok(start),
            Seq::new(
                config.syncs.names().len(),
                |i: int| (config.syncs.names()[i]@, sync_table(config.syncs.values()[i]@)),
            ).take(k),
        ) matches Ok(c) && c.name == start.name && c.port == start.port && c.shares
            == start.shares && c.syncs.dom() =~= start.syncs.dom().union(
            Set::new(|key: Seq<char>| exists|i: int| 0 <= i < k && config.syncs.names()[i]@ == key),
        ) && (forall|i: int|
            0 <= i < k ==> c.syncs[config.syncs.names()[i]@] == config.syncs.values()[i]@)
            && (forall|key: Seq<char>|
            start.syncs.dom().contains(key) && !(exists|i: int|
                0 <= i < k && config.syncs.names()[i]@ == key) ==> c.syncs[key]
                == start.syncs[key]),
    decreases k,
{
    let names = config.syncs.names();
    let all = Seq::new(names.len(), |i: int| (names[i]@, sync_table(config.syncs.values()[i]@)));
    if k > 0 {
        lemma_syncs_read_back(config, start, k - 1);
        assert(all.take(k).drop_last() =~= all.take(k - 1));
        let before = apply_all(Ok(start), all.take(k - 1))->Ok_0;
        let key = names[k - 1]@;
        let sync = config.syncs.values()[k - 1]@;
        lemma_tables_are_modules(seq![], sync, key);
        let after = apply_all(Ok(start), all.take(k))->Ok_0;
        assert(after.syncs == before.syncs.insert(key, sync));
        assert forall|i: int| 0 <= i < k implies after.syncs[names[i]@]
            == config.syncs.values()[i]@ by {
            if i < k - 1 {
                assert(names[i]@ != names[k - 1]@);
            }
        }
    } else {
        assert(all.take(0) =~= Seq::empty());
    }
}

/// What is stored is read back: the document in which a configuration is
/// stored describes this configuration.
pub proof fn lemma_document_reads_back(config: &Config)
    requires
        config.wf(),
    ensures
        document_config(config_document(config)) == Ok::<ConfigView, ErrorKind>(config@),
{
    let head = seq![
        (name_key(), SettingView::Text(config.name@)),
        (port_key(), SettingView::Number(config.port as i64)),
    ];
    let share_names = config.shares.names();
    let sync_names = config.syncs.names();
    let shares = Seq::new(
        share_names.len(),
        |i: int| (share_names[i]@, share_table(config.shares.values()[i].path@)),
    );
    let syncs = Seq::new(
        sync_names.len(),
        |i: int| (sync_names[i]@, sync_table(config.syncs.values()[i]@)),
    );
    lemma_apply_all_is_document_config(config_document(config));
    lemma_apply_all_concat(Ok(default_config()), head + shares, syncs);
    lemma_apply_all_concat(Ok(default_config()), head, shares);
    // The name and the port.
    lemma_port_survives(config.port);
    assert(name_key() != port_key()) by {
        assert(name_key()[0] != port_key()[0]);
    }
    reveal_with_fuel(apply_all, 3);
    assert(head.drop_last() =~= seq![(name_key(), SettingView::Text(config.name@))]);
    assert(head.drop_last().drop_last() =~= Seq::empty());
    let named = ConfigView {
        name: config.name@,
        port: config.port,
        shares: Map::empty(),
        syncs: Map::empty(),
    };
    assert(apply_all(Ok(default_config()), head) == Ok::<ConfigView, ErrorKind>(named));
    // The shares, and after them the syncs.
    lemma_shares_read_back(config, named, share_names.len() as int);
    assert(shares.take(share_names.len() as int) =~= shares);
    let shared = apply_all(Ok(named), shares)->Ok_0;
    lemma_syncs_read_back(config, shared, sync_names.len() as int);
    assert(syncs.take(sync_names.len() as int) =~= syncs);
    let done = apply_all(Ok(shared), syncs)->Ok_0;
    assert(done.shares =~= config@.shares) by {
        assert forall|key: Seq<char>| config@.shares.dom().contains(key) implies done.shares.dom(
        ).contains(key) && done.shares[key] == config@.shares[key] by {
            let i = index_of(share_names, key)->0;
            assert(share_names[i]@ == key);
        }
        assert forall|key: Seq<char>| done.shares.dom().contains(key)
            implies config@.shares.dom().contains(key) by {
            let i = choose|i: int| 0 <= i < share_names.len() && share_names[i]@ == key;
            lemma_index_of_distinct(share_names, i);
        }
    }
    assert(done.syncs =~= config@.syncs) by {
        assert forall|key: Seq<char>| config@.syncs.dom().contains(key) implies done.syncs.dom(
        ).contains(key) && done.syncs[key] == config@.syncs[key] by {
            let i = index_of(sync_names, key)->0;
            assert(sync_names[i]@ == key);
        }
        assert forall|key: Seq<char>| done.syncs.dom().contains(key)
            implies config@.syncs.dom().contains(key) by {
            let i = choose|i: int| 0 <= i < sync_names.len() && sync_names[i]@ == key;
            lemma_index_of_distinct(sync_names, i);
        }
    }
}

} // verus!
