//! Trusted boundary to `serde_yaml`, and the verified traversal that turns a
//! parsed document into plain values the rest of the library can reason
//! about.
//!
//! A `serde_yaml::Value` is opaque to verification, so nothing is stated of
//! what the accessors return; everything the library proves about parsing is
//! stated over the plain [`RawDoc`] extracted here. The plain-string entry
//! points carry names for their results — whether a text parses and whether
//! its root is a mapping — and a mapping's string-keyed entries carry a
//! contents name ([`mapping_entries`]) that every mapping wrapper speaks of,
//! so the orchestrator's runtime-config policy is verified over it.
use vstd::prelude::*;

verus! {

#[verifier::external_type_specification]
#[verifier::external_body]
pub struct ExYamlValue(serde_yaml::Value);

#[verifier::external_type_specification]
#[verifier::external_body]
pub struct ExYamlMapping(serde_yaml::Mapping);

/// Whether `serde_yaml::from_str::<Value>` accepts the text: a function of
/// the text alone.
pub uninterp spec fn yaml_parses(s: Seq<char>) -> bool;

/// Whether `serde_yaml::from_str::<Mapping>` accepts the text — it is valid
/// YAML whose root is a mapping: a function of the text alone.
pub uninterp spec fn yaml_doc_is_mapping(s: Seq<char>) -> bool;

/// Relies on `serde_yaml::from_str::<Value>`: parses a document, or fails;
/// acceptance depends on the text alone.
#[verifier::external_body]
pub fn yaml_parse_value(s: &str) -> (r: Option<serde_yaml::Value>)
    ensures
        r is Some <==> yaml_parses(s@),
{
    serde_yaml::from_str::<serde_yaml::Value>(s).ok()
}

/// Relies on `serde_yaml::Value::is_mapping`.
#[verifier::external_body]
pub fn yaml_is_mapping(v: &serde_yaml::Value) -> bool {
    v.is_mapping()
}

/// Relies on `serde_yaml::Value::get` with a string index.
#[verifier::external_body]
fn yaml_get<'a>(v: &'a serde_yaml::Value, key: &str) -> Option<&'a serde_yaml::Value> {
    v.get(key)
}

/// Relies on `serde_yaml::Value::as_str`.
#[verifier::external_body]
fn yaml_as_str<'a>(v: &'a serde_yaml::Value) -> Option<&'a str> {
    v.as_str()
}

/// Relies on `serde_yaml::Value::as_bool`.
#[verifier::external_body]
fn yaml_as_bool(v: &serde_yaml::Value) -> Option<bool> {
    v.as_bool()
}

/// Relies on `serde_yaml::Value::as_sequence`.
#[verifier::external_body]
fn yaml_as_sequence<'a>(v: &'a serde_yaml::Value) -> Option<&'a Vec<serde_yaml::Value>> {
    v.as_sequence()
}

/// Relies on `serde_yaml::to_string::<Value>`: renders one value back to
/// YAML text.
#[verifier::external_body]
fn yaml_render(v: &serde_yaml::Value) -> Option<String> {
    serde_yaml::to_string(v).ok()
}

/// Relies on `serde_yaml::from_str::<Mapping>`: parses a document whose root
/// is a mapping, or fails; acceptance depends on the text alone, and implies
/// the text parses at all.
#[verifier::external_body]
pub fn yaml_parse_mapping(s: &str) -> (r: Option<serde_yaml::Mapping>)
    ensures
        r is Some <==> yaml_doc_is_mapping(s@),
        r is Some ==> yaml_parses(s@),
{
    serde_yaml::from_str::<serde_yaml::Mapping>(s).ok()
}

/// One value of a document mapping, as far as this library reads or writes
/// it: a string, an unsigned number, a boolean, or anything else.
pub enum YamlEntryView {
    Text(Seq<char>),
    Unsigned(int),
    Flag(bool),
    Other,
}

/// The string-keyed entries a mapping holds, each value read as a
/// [`YamlEntryView`]: the contents name every mapping wrapper below speaks
/// of.
pub uninterp spec fn mapping_entries(m: serde_yaml::Mapping) -> Map<Seq<char>, YamlEntryView>;

/// What `serde_yaml::to_string` renders the mapping to, or `None` when
/// serialization fails: a function of the mapping alone.
pub uninterp spec fn mapping_rendered(m: serde_yaml::Mapping) -> Option<Seq<char>>;

/// Relies on `serde_yaml::Mapping::insert`: stores the string under the
/// string key, replacing any previous entry and leaving the rest unchanged.
#[verifier::external_body]
pub fn yaml_mapping_insert_str(m: &mut serde_yaml::Mapping, key: &str, value: &str)
    ensures
        mapping_entries(*final(m)) == mapping_entries(*old(m)).insert(
            key@,
            YamlEntryView::Text(value@),
        ),
{
    m.insert(
        serde_yaml::Value::String(key.to_string()),
        serde_yaml::Value::String(value.to_string()),
    );
}

/// Relies on `serde_yaml::Mapping::insert`: stores the number under the
/// string key, replacing any previous entry and leaving the rest unchanged.
#[verifier::external_body]
pub fn yaml_mapping_insert_u64(m: &mut serde_yaml::Mapping, key: &str, value: u64)
    ensures
        mapping_entries(*final(m)) == mapping_entries(*old(m)).insert(
            key@,
            YamlEntryView::Unsigned(value as int),
        ),
{
    m.insert(
        serde_yaml::Value::String(key.to_string()),
        serde_yaml::Value::Number(serde_yaml::Number::from(value)),
    );
}

/// Relies on `serde_yaml::Mapping::insert`: stores the flag under the string
/// key, replacing any previous entry and leaving the rest unchanged.
#[verifier::external_body]
pub fn yaml_mapping_insert_bool(m: &mut serde_yaml::Mapping, key: &str, value: bool)
    ensures
        mapping_entries(*final(m)) == mapping_entries(*old(m)).insert(
            key@,
            YamlEntryView::Flag(value),
        ),
{
    m.insert(serde_yaml::Value::String(key.to_string()), serde_yaml::Value::Bool(value));
}

/// Relies on `serde_yaml::Mapping::contains_key` with a string index.
#[verifier::external_body]
pub fn yaml_mapping_contains_key(m: &serde_yaml::Mapping, key: &str) -> (r: bool)
    ensures
        r == mapping_entries(*m).dom().contains(key@),
{
    m.contains_key(key)
}

/// Relies on `serde_yaml::to_string::<Mapping>`: renders the mapping back to
/// YAML text.
#[verifier::external_body]
pub fn yaml_mapping_render(m: &serde_yaml::Mapping) -> (r: Option<String>)
    ensures
        r.deep_view() == mapping_rendered(*m),
{
    serde_yaml::to_string(m).ok()
}

/// One entry of a document's `proxies` list, with missing fields defaulted.
pub struct RawProxy {
    pub name: String,
    pub kind: String,
    pub udp: bool,
}

/// Mathematical model of a [`RawProxy`].
#[verifier::ext_equal]
pub struct RawProxyView {
    pub name: Seq<char>,
    pub kind: Seq<char>,
    pub udp: bool,
}

impl View for RawProxy {
    type V = RawProxyView;

    open spec fn view(&self) -> RawProxyView {
        RawProxyView { name: self.name@, kind: self.kind@, udp: self.udp }
    }
}

impl DeepView for RawProxy {
    type V = RawProxyView;

    open spec fn deep_view(&self) -> RawProxyView {
        self@
    }
}

/// One entry of a document's `proxy-groups` list.
pub struct RawGroup {
    pub name: String,
    pub kind: String,
    pub proxies: Vec<String>,
}

/// Mathematical model of a [`RawGroup`].
#[verifier::ext_equal]
pub struct RawGroupView {
    pub name: Seq<char>,
    pub kind: Seq<char>,
    pub proxies: Seq<Seq<char>>,
}

impl View for RawGroup {
    type V = RawGroupView;

    open spec fn view(&self) -> RawGroupView {
        RawGroupView { name: self.name@, kind: self.kind@, proxies: self.proxies.deep_view() }
    }
}

impl DeepView for RawGroup {
    type V = RawGroupView;

    open spec fn deep_view(&self) -> RawGroupView {
        self@
    }
}

/// One entry of a document's `rules` list: its text, and whether it was a
/// plain scalar or had to be rendered back to YAML.
pub struct RawRule {
    pub text: String,
    pub scalar: bool,
}

/// Mathematical model of a [`RawRule`].
#[verifier::ext_equal]
pub struct RawRuleView {
    pub text: Seq<char>,
    pub scalar: bool,
}

impl View for RawRule {
    type V = RawRuleView;

    open spec fn view(&self) -> RawRuleView {
        RawRuleView { text: self.text@, scalar: self.scalar }
    }
}

impl DeepView for RawRule {
    type V = RawRuleView;

    open spec fn deep_view(&self) -> RawRuleView {
        self@
    }
}

/// The plain shape of a structured routing-config document.
pub struct RawDoc {
    pub proxies: Vec<RawProxy>,
    pub groups: Vec<RawGroup>,
    pub rules: Vec<RawRule>,
}

/// Mathematical model of a [`RawDoc`].
#[verifier::ext_equal]
pub struct RawDocView {
    pub proxies: Seq<RawProxyView>,
    pub groups: Seq<RawGroupView>,
    pub rules: Seq<RawRuleView>,
}

impl View for RawDoc {
    type V = RawDocView;

    open spec fn view(&self) -> RawDocView {
        RawDocView {
            proxies: self.proxies.deep_view(),
            groups: self.groups.deep_view(),
            rules: self.rules.deep_view(),
        }
    }
}

fn extract_str_field(v: &serde_yaml::Value, key: &str) -> Option<String> {
    match yaml_get(v, key) {
        Some(field) => match yaml_as_str(field) {
            Some(s) => Some(s.to_owned()),
            None => None,
        },
        None => Some(String::new()),
    }
}

fn extract_bool_field(v: &serde_yaml::Value, key: &str) -> Option<bool> {
    match yaml_get(v, key) {
        Some(field) => yaml_as_bool(field),
        None => Some(false),
    }
}

fn extract_string_list(v: &serde_yaml::Value) -> Option<Vec<String>> {
    let mut out: Vec<String> = Vec::new();
    match yaml_as_sequence(v) {
        Some(items) => {
            let n = items.len();
            for i in 0..n
                invariant
                    n == items@.len(),
            {
                match yaml_as_str(&items[i]) {
                    Some(s) => {
                        out.push(s.to_owned());
                    },
                    None => {
                        return None;
                    },
                }
            }
            Some(out)
        },
        None => None,
    }
}

/// Reads a parsed document into plain values: the entries under `proxies`,
/// `proxy-groups` and `rules`, with absent scalar fields defaulted as the
/// document model prescribes and any wrongly-typed present field failing the
/// whole read. Succeeding presupposes the text parses; beyond that the
/// document's values are opaque, so the extracted shape cannot be tied to
/// the text, and every property of parsing is proved downstream of the
/// [`RawDoc`] this returns.
pub fn extract_raw_doc(content: &str) -> (r: Option<RawDoc>)
    ensures
        r is Some ==> yaml_parses(content@),
        !yaml_parses(content@) ==> r is None,
{
    let root = match yaml_parse_value(content) {
        Some(root) => root,
        None => {
            return None;
        },
    };
    let mut proxies: Vec<RawProxy> = Vec::new();
    match yaml_get(&root, "proxies") {
        Some(list) => match yaml_as_sequence(list) {
            Some(items) => {
                let n = items.len();
                for i in 0..n
                    invariant
                        n == items@.len(),
                {
                    if !yaml_is_mapping(&items[i]) {
                        return None;
                    }
                    let name = extract_str_field(&items[i], "name")?;
                    let kind = extract_str_field(&items[i], "type")?;
                    let udp = extract_bool_field(&items[i], "udp")?;
                    proxies.push(RawProxy { name, kind, udp });
                }
            },
            None => {
                return None;
            },
        },
        None => {},
    }
    let mut groups: Vec<RawGroup> = Vec::new();
    match yaml_get(&root, "proxy-groups") {
        Some(list) => match yaml_as_sequence(list) {
            Some(items) => {
                let n = items.len();
                for i in 0..n
                    invariant
                        n == items@.len(),
                {
                    if !yaml_is_mapping(&items[i]) {
                        return None;
                    }
                    let proxies_field = match yaml_get(&items[i], "proxies") {
                        Some(f) => extract_string_list(f)?,
                        None => Vec::new(),
                    };
                    let name = extract_str_field(&items[i], "name")?;
                    let kind = extract_str_field(&items[i], "type")?;
                    groups.push(RawGroup { name, kind, proxies: proxies_field });
                }
            },
            None => {
                return None;
            },
        },
        None => {},
    }
    let mut rules: Vec<RawRule> = Vec::new();
    match yaml_get(&root, "rules") {
        Some(list) => match yaml_as_sequence(list) {
            Some(items) => {
                let n = items.len();
                for i in 0..n
                    invariant
                        n == items@.len(),
                {
                    match yaml_as_str(&items[i]) {
                        Some(s) => {
                            rules.push(RawRule { text: s.to_owned(), scalar: true });
                        },
                        None => {
                            match yaml_render(&items[i]) {
                                Some(rendered) => {
                                    rules.push(RawRule { text: rendered, scalar: false });
                                },
                                None => {},
                            }
                        },
                    }
                }
            },
            None => {
                return None;
            },
        },
        None => {},
    }
    Some(RawDoc { proxies, groups, rules })
}

} // verus!
