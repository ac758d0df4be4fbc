//! The normalized profile model: proxy nodes, proxy groups and routing rules
//! extracted from a subscription document.
use vstd::prelude::*;

verus! {

/// Mathematical model of a [`ProxyNode`].
#[verifier::ext_equal]
pub struct NodeView {
    pub name: Seq<char>,
    pub kind: Seq<char>,
    pub udp: bool,
}

/// One proxy endpoint of a profile.
#[derive(Debug, Clone)]
pub struct ProxyNode {
    pub name: String,
    pub kind: String,
    pub udp: bool,
}

impl View for ProxyNode {
    type V = NodeView;

    open spec fn view(&self) -> NodeView {
        NodeView { name: self.name@, kind: self.kind@, udp: self.udp }
    }
}

impl ProxyNode {
    /// A fresh node with the same contents.
    pub fn duplicate(&self) -> (r: ProxyNode)
        ensures
            r@ == self@,
    {
        ProxyNode { name: self.name.clone(), kind: self.kind.clone(), udp: self.udp }
    }
}

/// Mathematical model of a [`ProxyGroup`].
#[verifier::ext_equal]
pub struct GroupView {
    pub name: Seq<char>,
    pub kind: Seq<char>,
    pub size: int,
    pub proxies: Seq<Seq<char>>,
}

impl GroupView {
    /// A group's recorded size always matches its membership list.
    pub open spec fn wf(self) -> bool {
        self.size == self.proxies.len()
    }
}

/// A named, ordered set of proxy node names selectable as a routing outbound.
#[derive(Debug, Clone)]
pub struct ProxyGroup {
    pub name: String,
    pub kind: String,
    pub size: usize,
    pub proxies: Vec<String>,
}

impl View for ProxyGroup {
    type V = GroupView;

    open spec fn view(&self) -> GroupView {
        GroupView {
            name: self.name@,
            kind: self.kind@,
            size: self.size as int,
            proxies: self.proxies.deep_view(),
        }
    }
}

/// A fresh vector with the same string contents.
pub fn duplicate_strings(v: &Vec<String>) -> (r: Vec<String>)
    ensures
        r.deep_view() == v.deep_view(),
{
    let mut r: Vec<String> = Vec::new();
    let n = v.len();
    for i in 0..n
        invariant
            n == v@.len(),
            r.deep_view() == v.deep_view().subrange(0, i as int),
    {
        let ghost before = r.deep_view();
        let x = v[i].clone();
        assert(x@ == v@[i as int]@);
        r.push(x);
        assert(r@.len() == before.len() + 1);
        assert(forall|k: int| 0 <= k < before.len() ==> r.deep_view()[k] == before[k]);
        assert(r.deep_view()[before.len() as int] == v@[i as int]@);
        assert(v.deep_view()[i as int] == v@[i as int].deep_view());
        assert(r.deep_view() =~~= v.deep_view().subrange(0, i + 1));
    }
    assert(v.deep_view().subrange(0, n as int) =~= v.deep_view());
    r
}

impl ProxyGroup {
    /// A fresh group with the same contents.
    pub fn duplicate(&self) -> (r: ProxyGroup)
        ensures
            r@ == self@,
    {
        ProxyGroup {
            name: self.name.clone(),
            kind: self.kind.clone(),
            size: self.size,
            proxies: duplicate_strings(&self.proxies),
        }
    }
}

/// Mathematical model of a [`Profile`].
#[verifier::ext_equal]
pub struct ProfileView {
    pub id: Seq<char>,
    pub name: Seq<char>,
    pub source_url: Seq<char>,
    pub updated_at: Seq<char>,
    pub node_count: int,
    pub group_count: int,
    pub rule_count: int,
    pub active: bool,
    pub proxy_groups: Seq<GroupView>,
    pub proxy_nodes: Seq<NodeView>,
    pub rules: Seq<Seq<char>>,
    pub raw_yaml: Seq<char>,
}

impl ProfileView {
    /// The stored counts match the stored lists, and every group is
    /// well-formed.
    pub open spec fn wf(self) -> bool {
        &&& self.node_count == self.proxy_nodes.len()
        &&& self.group_count == self.proxy_groups.len()
        &&& self.rule_count == self.rules.len()
        &&& forall|i: int| 0 <= i < self.proxy_groups.len() ==> (#[trigger] self.proxy_groups[i]).wf()
    }

    /// The same profile with a different active flag.
    pub open spec fn with_active(self, active: bool) -> ProfileView {
        ProfileView { active, ..self }
    }
}

/// A normalized snapshot of one subscription: identity, counts, and the
/// extracted nodes, groups and rules.
#[derive(Debug, Clone)]
pub struct Profile {
    pub id: String,
    pub name: String,
    pub source_url: String,
    pub updated_at: String,
    pub node_count: usize,
    pub group_count: usize,
    pub rule_count: usize,
    pub active: bool,
    pub proxy_groups: Vec<ProxyGroup>,
    pub proxy_nodes: Vec<ProxyNode>,
    pub rules: Vec<String>,
    pub raw_yaml: String,
}

impl View for Profile {
    type V = ProfileView;

    open spec fn view(&self) -> ProfileView {
        ProfileView {
            id: self.id@,
            name: self.name@,
            source_url: self.source_url@,
            updated_at: self.updated_at@,
            node_count: self.node_count as int,
            group_count: self.group_count as int,
            rule_count: self.rule_count as int,
            active: self.active,
            proxy_groups: self.proxy_groups.deep_view(),
            proxy_nodes: self.proxy_nodes.deep_view(),
            rules: self.rules.deep_view(),
            raw_yaml: self.raw_yaml@,
        }
    }
}

impl DeepView for ProxyNode {
    type V = NodeView;

    open spec fn deep_view(&self) -> NodeView {
        self@
    }
}

impl DeepView for ProxyGroup {
    type V = GroupView;

    open spec fn deep_view(&self) -> GroupView {
        self@
    }
}

impl DeepView for Profile {
    type V = ProfileView;

    open spec fn deep_view(&self) -> ProfileView {
        self@
    }
}

/// A fresh vector with the same node contents.
pub fn duplicate_nodes(v: &Vec<ProxyNode>) -> (r: Vec<ProxyNode>)
    ensures
        r.deep_view() == v.deep_view(),
{
    let mut r: Vec<ProxyNode> = Vec::new();
    let n = v.len();
    for i in 0..n
        invariant
            n == v@.len(),
            r.deep_view() == v.deep_view().subrange(0, i as int),
    {
        let ghost before = r.deep_view();
        let x = v[i].duplicate();
        assert(x@ == v@[i as int]@);
        r.push(x);
        assert(forall|k: int| 0 <= k < before.len() ==> r.deep_view()[k] == before[k]);
        assert(r.deep_view()[before.len() as int] == v@[i as int]@);
        assert(v.deep_view()[i as int] == v@[i as int]@);
        assert(r.deep_view() =~~= v.deep_view().subrange(0, i + 1));
    }
    assert(v.deep_view().subrange(0, n as int) =~= v.deep_view());
    r
}

/// A fresh vector with the same group contents.
pub fn duplicate_groups(v: &Vec<ProxyGroup>) -> (r: Vec<ProxyGroup>)
    ensures
        r.deep_view() == v.deep_view(),
{
    let mut r: Vec<ProxyGroup> = Vec::new();
    let n = v.len();
    for i in 0..n
        invariant
            n == v@.len(),
            r.deep_view() == v.deep_view().subrange(0, i as int),
    {
        let ghost before = r.deep_view();
        let x = v[i].duplicate();
        assert(x@ == v@[i as int]@);
        r.push(x);
        assert(forall|k: int| 0 <= k < before.len() ==> r.deep_view()[k] == before[k]);
        assert(r.deep_view()[before.len() as int] == v@[i as int]@);
        assert(v.deep_view()[i as int] == v@[i as int]@);
        assert(r.deep_view() =~~= v.deep_view().subrange(0, i + 1));
    }
    assert(v.deep_view().subrange(0, n as int) =~= v.deep_view());
    r
}

impl Profile {
    /// A fresh profile with the same contents.
    pub fn duplicate(&self) -> (r: Profile)
        ensures
            r@ == self@,
    {
        Profile {
            id: self.id.clone(),
            name: self.name.clone(),
            source_url: self.source_url.clone(),
            updated_at: self.updated_at.clone(),
            node_count: self.node_count,
            group_count: self.group_count,
            rule_count: self.rule_count,
            active: self.active,
            proxy_groups: duplicate_groups(&self.proxy_groups),
            proxy_nodes: duplicate_nodes(&self.proxy_nodes),
            rules: duplicate_strings(&self.rules),
            raw_yaml: self.raw_yaml.clone(),
        }
    }
}

/// A fresh vector with the same profile contents.
pub fn duplicate_profiles(v: &Vec<Profile>) -> (r: Vec<Profile>)
    ensures
        r.deep_view() == v.deep_view(),
{
    let mut r: Vec<Profile> = Vec::new();
    let n = v.len();
    for i in 0..n
        invariant
            n == v@.len(),
            r.deep_view() == v.deep_view().subrange(0, i as int),
    {
        let ghost before = r.deep_view();
        let x = v[i].duplicate();
        assert(x@ == v@[i as int]@);
        r.push(x);
        assert(forall|k: int| 0 <= k < before.len() ==> r.deep_view()[k] == before[k]);
        assert(r.deep_view()[before.len() as int] == v@[i as int]@);
        assert(v.deep_view()[i as int] == v@[i as int]@);
        assert(r.deep_view() =~~= v.deep_view().subrange(0, i + 1));
    }
    assert(v.deep_view().subrange(0, n as int) =~= v.deep_view());
    r
}

/// What the profile parser extracts from one document, before identity and
/// bookkeeping fields are attached.
#[derive(Debug, Clone)]
pub struct ParsedProfile {
    pub name: String,
    pub node_count: usize,
    pub group_count: usize,
    pub rule_count: usize,
    pub proxy_groups: Vec<ProxyGroup>,
    pub proxy_nodes: Vec<ProxyNode>,
    pub rules: Vec<String>,
}

/// Mathematical model of a [`ParsedProfile`].
#[verifier::ext_equal]
pub struct ParsedView {
    pub name: Seq<char>,
    pub node_count: int,
    pub group_count: int,
    pub rule_count: int,
    pub proxy_groups: Seq<GroupView>,
    pub proxy_nodes: Seq<NodeView>,
    pub rules: Seq<Seq<char>>,
}

impl View for ParsedProfile {
    type V = ParsedView;

    open spec fn view(&self) -> ParsedView {
        ParsedView {
            name: self.name@,
            node_count: self.node_count as int,
            group_count: self.group_count as int,
            rule_count: self.rule_count as int,
            proxy_groups: self.proxy_groups.deep_view(),
            proxy_nodes: self.proxy_nodes.deep_view(),
            rules: self.rules.deep_view(),
        }
    }
}

impl ParsedView {
    /// Counts match lists, groups are well-formed.
    pub open spec fn wf(self) -> bool {
        &&& self.node_count == self.proxy_nodes.len()
        &&& self.group_count == self.proxy_groups.len()
        &&& self.rule_count == self.rules.len()
        &&& forall|i: int| 0 <= i < self.proxy_groups.len() ==> (#[trigger] self.proxy_groups[i]).wf()
    }
}

} // verus!
