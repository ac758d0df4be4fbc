//! The orchestrator: one state machine owning the configuration, the profile
//! set and the running/proxy-enabled flags.
//!
//! Every mutation keeps the profile-set invariant: at most one profile is
//! active, and a non-empty set has exactly one active profile. Operations
//! that touch the outside world (the kernel process, the OS proxy settings,
//! the network) are split into decision and commit steps; the caller performs
//! the outside work between them and reports its outcome.
use vstd::prelude::*;

use crate::profile::{Profile, ProfileView, ProxyGroup, ProxyNode};
use crate::{Config, CoreError, ProxyMode};

verus! {

/// At most one profile is marked active.
pub open spec fn at_most_one_active(s: Seq<ProfileView>) -> bool {
    forall|i: int, j: int|
        0 <= i < j < s.len() ==> !((#[trigger] s[i]).active && (#[trigger] s[j]).active)
}

/// Some profile is marked active.
pub open spec fn some_active(s: Seq<ProfileView>) -> bool {
    exists|i: int| 0 <= i < s.len() && (#[trigger] s[i]).active
}

/// The profile-set invariant: at most one active, and exactly one when the
/// set is non-empty.
pub open spec fn profiles_ok(s: Seq<ProfileView>) -> bool {
    at_most_one_active(s) && (s.len() > 0 ==> some_active(s))
}

/// Mathematical model of the orchestrator state.
#[verifier::ext_equal]
pub struct CoreView {
    pub running: bool,
    pub system_proxy_enabled: bool,
    pub config: Config,
    pub profiles: Seq<ProfileView>,
}

impl CoreView {
    /// The state invariant.
    pub open spec fn inv(self) -> bool {
        profiles_ok(self.profiles)
    }

    /// The same state with another running flag.
    pub open spec fn with_running(self, running: bool) -> CoreView {
        CoreView { running, ..self }
    }

    /// The same state with another proxy-enabled flag.
    pub open spec fn with_proxy_enabled(self, enabled: bool) -> CoreView {
        CoreView { system_proxy_enabled: enabled, ..self }
    }
}

/// The orchestrator.
#[derive(Debug)]
pub struct Core {
    running: bool,
    system_proxy_enabled: bool,
    config: Config,
    profiles: Vec<Profile>,
}

impl View for Core {
    type V = CoreView;

    closed spec fn view(&self) -> CoreView {
        CoreView {
            running: self.running,
            system_proxy_enabled: self.system_proxy_enabled,
            config: self.config,
            profiles: self.profiles.deep_view(),
        }
    }
}

/// Index of the first profile with this source URL, or `-1`.
pub open spec fn find_url_idx(s: Seq<ProfileView>, url: Seq<char>) -> int
    decreases s.len(),
{
    if s.len() == 0 {
        -1
    } else if s[0].source_url == url {
        0
    } else {
        let r = find_url_idx(s.drop_first(), url);
        if r < 0 {
            -1
        } else {
            r + 1
        }
    }
}

pub proof fn lemma_find_url_idx(s: Seq<ProfileView>, url: Seq<char>)
    ensures
        find_url_idx(s, url) >= -1,
        find_url_idx(s, url) == -1 ==> forall|i: int|
            0 <= i < s.len() ==> (#[trigger] s[i]).source_url != url,
        find_url_idx(s, url) >= 0 ==> {
            &&& find_url_idx(s, url) < s.len()
            &&& s[find_url_idx(s, url)].source_url == url
            &&& forall|i: int| 0 <= i < find_url_idx(s, url) ==> (#[trigger] s[i]).source_url != url
        },
    decreases s.len(),
{
    if s.len() > 0 && s[0].source_url != url {
        lemma_find_url_idx(s.drop_first(), url);
        assert(forall|i: int| 1 <= i < s.len() ==> s[i] == s.drop_first()[i - 1]);
    }
}

/// Index of the first profile with this id, or `-1`.
pub open spec fn find_id_idx(s: Seq<ProfileView>, id: Seq<char>) -> int
    decreases s.len(),
{
    if s.len() == 0 {
        -1
    } else if s[0].id == id {
        0
    } else {
        let r = find_id_idx(s.drop_first(), id);
        if r < 0 {
            -1
        } else {
            r + 1
        }
    }
}

pub proof fn lemma_find_id_idx(s: Seq<ProfileView>, id: Seq<char>)
    ensures
        find_id_idx(s, id) >= -1,
        find_id_idx(s, id) == -1 ==> forall|i: int| 0 <= i < s.len() ==> (#[trigger] s[i]).id != id,
        find_id_idx(s, id) >= 0 ==> {
            &&& find_id_idx(s, id) < s.len()
            &&& s[find_id_idx(s, id)].id == id
            &&& forall|i: int| 0 <= i < find_id_idx(s, id) ==> (#[trigger] s[i]).id != id
        },
    decreases s.len(),
{
    if s.len() > 0 && s[0].id != id {
        lemma_find_id_idx(s.drop_first(), id);
        assert(forall|i: int| 1 <= i < s.len() ==> s[i] == s.drop_first()[i - 1]);
    }
}

/// Index of the first active profile, or `-1`.
pub open spec fn first_active_idx(s: Seq<ProfileView>) -> int
    decreases s.len(),
{
    if s.len() == 0 {
        -1
    } else if s[0].active {
        0
    } else {
        let r = first_active_idx(s.drop_first());
        if r < 0 {
            -1
        } else {
            r + 1
        }
    }
}

pub proof fn lemma_first_active_idx(s: Seq<ProfileView>)
    ensures
        first_active_idx(s) >= -1,
        first_active_idx(s) == -1 <==> !some_active(s),
        first_active_idx(s) >= 0 ==> {
            &&& first_active_idx(s) < s.len()
            &&& s[first_active_idx(s)].active
            &&& forall|i: int| 0 <= i < first_active_idx(s) ==> !(#[trigger] s[i]).active
        },
    decreases s.len(),
{
    if s.len() > 0 && !s[0].active {
        lemma_first_active_idx(s.drop_first());
        assert(forall|i: int| 1 <= i < s.len() ==> s[i] == s.drop_first()[i - 1]);
        if first_active_idx(s.drop_first()) >= 0 {
            assert(some_active(s)) by {
                assert(s[first_active_idx(s.drop_first()) + 1].active);
            }
        }
        if !some_active(s.drop_first()) && some_active(s) {
            let w = choose|w: int| 0 <= w < s.len() && s[w].active;
            assert(w >= 1);
            assert(s.drop_first()[w - 1].active);
        }
    } else if s.len() > 0 {
        assert(some_active(s)) by {
            assert(s[0].active);
        }
    }
}

/// What a bulk replacement stores: nothing for an empty set; otherwise the
/// first profile marked active keeps the flag and every other profile loses
/// it, with the first profile forced active when none was marked.
pub open spec fn replace_spec(s: Seq<ProfileView>) -> Seq<ProfileView> {
    if s.len() == 0 {
        s
    } else {
        let fa = first_active_idx(s);
        let keep: int = if fa < 0 {
            0
        } else {
            fa
        };
        Seq::new(s.len(), |i: int| s[i].with_active(i == keep))
    }
}

/// What a deletion leaves: the profile removed and, when it was active and
/// others remain, the first remaining profile made active.
pub open spec fn delete_spec(s: Seq<ProfileView>, i: int) -> Seq<ProfileView> {
    let removed = s.remove(i);
    if s[i].active && removed.len() > 0 {
        removed.update(0, removed[0].with_active(true))
    } else {
        removed
    }
}

impl Core {
    /// A fresh orchestrator: stopped, proxy off, default configuration, no
    /// profiles.
    pub fn new() -> (r: Core)
        ensures
            r@ == (CoreView {
                running: false,
                system_proxy_enabled: false,
                config: Config { mode: ProxyMode::Rule, mixed_port: 7890, allow_lan: false },
                profiles: Seq::empty(),
            }),
            r@.inv(),
    {
        let r = Core {
            running: false,
            system_proxy_enabled: false,
            config: Config::default(),
            profiles: Vec::new(),
        };
        assert(r@.profiles =~= Seq::<ProfileView>::empty());
        r
    }

    /// The current configuration.
    pub fn config(&self) -> (r: Config)
        ensures
            r == self@.config,
    {
        Config {
            mode: self.config.mode,
            mixed_port: self.config.mixed_port,
            allow_lan: self.config.allow_lan,
        }
    }

    /// Replaces the configuration.
    pub fn update_config(&mut self, config: Config) -> (r: Result<(), CoreError>)
        ensures
            r is Ok,
            final(self)@ == (CoreView { config, ..old(self)@ }),
    {
        self.config = config;
        Ok(())
    }

    /// Whether the system proxy is currently considered enabled.
    pub fn is_system_proxy_enabled(&self) -> (r: bool)
        ensures
            r == self@.system_proxy_enabled,
    {
        self.system_proxy_enabled
    }

    /// Reconciles the running flag against the kernel's actual liveness and
    /// reports it: an exited kernel is treated as if it had been stopped.
    pub fn is_running(&mut self, kernel_alive: bool) -> (r: bool)
        ensures
            r == (old(self)@.running && kernel_alive),
            old(self)@.running && !kernel_alive ==> final(self)@ == old(
                self,
            )@.with_running(false).with_proxy_enabled(false),
            !(old(self)@.running && !kernel_alive) ==> final(self)@ == old(self)@,
    {
        if self.running && !kernel_alive {
            self.running = false;
            self.system_proxy_enabled = false;
            assert(self@ =~= old(self)@.with_running(false).with_proxy_enabled(false));
            false
        } else {
            assert(self@ =~= old(self)@);
            self.running
        }
    }

    /// A copy of the profile set.
    pub fn profiles(&self) -> (r: Vec<Profile>)
        ensures
            r.deep_view() == self@.profiles,
    {
        crate::profile::duplicate_profiles(&self.profiles)
    }

    /// The active profile, if any: with the invariant, exactly the first
    /// active one, present whenever the set is non-empty.
    pub fn active_profile(&self) -> (r: Option<Profile>)
        requires
            self@.inv(),
        ensures
            match r {
                Some(p) => {
                    &&& some_active(self@.profiles)
                    &&& first_active_idx(self@.profiles) >= 0
                    &&& p@ == self@.profiles[first_active_idx(self@.profiles)]
                },
                None => self@.profiles.len() == 0,
            },
    {
        proof {
            lemma_first_active_idx(self@.profiles);
        }
        let n = self.profiles.len();
        for i in 0..n
            invariant
                n == self.profiles@.len(),
                forall|j: int| 0 <= j < i ==> !(#[trigger] self@.profiles[j]).active,
        {
            proof {
                assert(self@.profiles[i as int] == self.profiles@[i as int]@);
            }
            if self.profiles[i].active {
                proof {
                    lemma_first_active_idx(self@.profiles);
                    let fa = first_active_idx(self@.profiles);
                    assert(some_active(self@.profiles)) by {
                        assert(self@.profiles[i as int].active);
                    }
                    if fa < i {
                        assert(self@.profiles[fa].active);
                    }
                    assert(fa == i);
                }
                return Some(self.profiles[i].duplicate());
            }
        }
        proof {
            if self@.profiles.len() > 0 {
                assert(!some_active(self@.profiles)) by {
                    if some_active(self@.profiles) {
                        let w = choose|w: int|
                            0 <= w < self@.profiles.len() && self@.profiles[w].active;
                        assert(!self@.profiles[w].active);
                    }
                }
            }
        }
        None
    }

    /// The active profile's groups, or an empty list.
    pub fn active_proxy_groups(&self) -> (r: Vec<ProxyGroup>)
        requires
            self@.inv(),
        ensures
            some_active(self@.profiles) ==> r.deep_view() == self@.profiles[first_active_idx(
                self@.profiles,
            )].proxy_groups,
            self@.profiles.len() == 0 ==> r@.len() == 0,
    {
        match self.active_profile() {
            Some(p) => p.proxy_groups,
            None => Vec::new(),
        }
    }

    /// The active profile's nodes, or an empty list.
    pub fn active_proxy_nodes(&self) -> (r: Vec<ProxyNode>)
        requires
            self@.inv(),
        ensures
            some_active(self@.profiles) ==> r.deep_view() == self@.profiles[first_active_idx(
                self@.profiles,
            )].proxy_nodes,
            self@.profiles.len() == 0 ==> r@.len() == 0,
    {
        match self.active_profile() {
            Some(p) => p.proxy_nodes,
            None => Vec::new(),
        }
    }

    /// The active profile's rules, or an empty list.
    pub fn active_rules(&self) -> (r: Vec<String>)
        requires
            self@.inv(),
        ensures
            some_active(self@.profiles) ==> r.deep_view() == self@.profiles[first_active_idx(
                self@.profiles,
            )].rules,
            self@.profiles.len() == 0 ==> r@.len() == 0,
    {
        match self.active_profile() {
            Some(p) => p.rules,
            None => Vec::new(),
        }
    }

    /// Makes exactly the named profile active. Fails, changing nothing, when
    /// no profile has that id.
    pub fn set_active_profile(&mut self, id: &str) -> (r: Result<(), CoreError>)
        requires
            old(self)@.inv(),
        ensures
            final(self)@.inv(),
            r is Ok <==> find_id_idx(old(self)@.profiles, id@) >= 0,
            r matches Err(e) ==> e is ProfileNotFound && final(self)@ == old(self)@,
            r is Ok ==> final(self)@ == (CoreView {
                profiles: Seq::new(
                    old(self)@.profiles.len(),
                    |i: int| old(self)@.profiles[i].with_active(
                        i == find_id_idx(old(self)@.profiles, id@),
                    ),
                ),
                ..old(self)@
            }),
    {
        proof {
            lemma_find_id_idx(self@.profiles, id@);
        }
        let idc = crate::text::str_to_chars(id);
        let n = self.profiles.len();
        let mut found: Option<usize> = None;
        for i in 0..n
            invariant
                n == self.profiles@.len(),
                idc@ == id@,
                match found {
                    Some(w) => w < i && self@.profiles[w as int].id == id@ && (forall|j: int|
                        0 <= j < w ==> (#[trigger] self@.profiles[j]).id != id@),
                    None => forall|j: int| 0 <= j < i ==> (#[trigger] self@.profiles[j]).id != id@,
                },
        {
            if found.is_none() {
                proof {
                    assert(self@.profiles[i as int] == self.profiles@[i as int]@);
                }
                let pid = crate::text::str_to_chars(self.profiles[i].id.as_str());
                if crate::text::eq_chars(pid.as_slice(), idc.as_slice()) {
                    found = Some(i);
                }
            }
        }
        match found {
            None => {
                proof {
                    let f = find_id_idx(self@.profiles, id@);
                    if f >= 0 {
                        assert(self@.profiles[f].id == id@);
                    }
                }
                Err(CoreError::ProfileNotFound)
            },
            Some(w) => {
                proof {
                    let f = find_id_idx(self@.profiles, id@);
                    if f < w {
                        assert(self@.profiles[f].id == id@);
                    }
                    if f > w {
                        assert(self@.profiles[w as int].id != id@);
                    }
                    assert(f == w);
                }
                let ghost target = Seq::new(
                    old(self)@.profiles.len(),
                    |i: int| old(self)@.profiles[i].with_active(
                        i == find_id_idx(old(self)@.profiles, id@),
                    ),
                );
                for i in 0..n
                    invariant
                        n == self.profiles@.len(),
                        n == old(self)@.profiles.len(),
                        w < n,
                        target == Seq::new(
                            old(self)@.profiles.len(),
                            |i: int| old(self)@.profiles[i].with_active(i == w as int),
                        ),
                        self@.profiles =~= target.subrange(0, i as int) + old(
                            self,
                        )@.profiles.skip(i as int),
                        self@.running == old(self)@.running,
                        self@.system_proxy_enabled == old(self)@.system_proxy_enabled,
                        self@.config == old(self)@.config,
                {
                    let make_active = i == w;
                    let ghost pre = self@.profiles;
                    set_profile_active(&mut self.profiles, i, make_active);
                    proof {
                        assert(self@.profiles =~= pre.update(
                            i as int,
                            pre[i as int].with_active(make_active),
                        ));
                        assert(pre[i as int] == old(self)@.profiles[i as int]);
                        assert(self@.profiles =~= target.subrange(0, i + 1) + old(
                            self,
                        )@.profiles.skip(i + 1));
                    }
                }
                proof {
                    assert(self@.profiles =~= target);
                    assert(final(self)@ =~= (CoreView { profiles: target, ..old(self)@ }));
                    assert(at_most_one_active(target));
                    assert(some_active(target)) by {
                        assert(target[w as int].active);
                    }
                }
                Ok(())
            },
        }
    }

    /// Replaces the whole profile set, normalizing the active flags: with
    /// none marked active the first is forced active; with several marked,
    /// only the first such stays active.
    pub fn replace_profiles(&mut self, profiles: Vec<Profile>)
        ensures
            final(self)@ == (CoreView {
                profiles: replace_spec(profiles.deep_view()),
                ..old(self)@
            }),
            final(self)@.inv(),
    {
        proof {
            lemma_first_active_idx(profiles.deep_view());
        }
        let ghost input = profiles.deep_view();
        if profiles.len() == 0 {
            self.profiles = profiles;
            proof {
                assert(final(self)@ =~= (CoreView { profiles: replace_spec(input), ..old(self)@ }));
            }
            return ;
        }
        let n = profiles.len();
        let mut keep: usize = 0;
        let mut found = false;
        for i in 0..n
            invariant
                n == profiles@.len(),
                found ==> keep < i && input[keep as int].active && (forall|j: int|
                    0 <= j < keep ==> !(#[trigger] input[j]).active),
                !found ==> keep == 0 && (forall|j: int| 0 <= j < i ==> !(#[trigger] input[j]).active),
                profiles.deep_view() == input,
        {
            if !found {
                proof {
                    assert(input[i as int] == profiles@[i as int]@);
                }
                if profiles[i].active {
                    keep = i;
                    found = true;
                }
            }
        }
        proof {
            let fa = first_active_idx(input);
            if found {
                if fa < keep {
                    assert(input[fa].active);
                }
                if fa > keep || fa < 0 {
                    assert(!input[keep as int].active);
                }
                assert(fa == keep);
            } else {
                if fa >= 0 {
                    assert(input[fa].active);
                }
                assert(fa == -1);
            }
        }
        let mut stored = profiles;
        let ghost target = replace_spec(input);
        for i in 0..n
            invariant
                n == stored@.len(),
                n == input.len(),
                keep < n,
                target == Seq::new(input.len(), |j: int| input[j].with_active(j == keep as int)),
                stored.deep_view() =~= target.subrange(0, i as int) + input.skip(i as int),
        {
            let make_active = i == keep;
            let ghost pre = stored.deep_view();
            set_profile_active(&mut stored, i, make_active);
            proof {
                assert(stored.deep_view() =~= pre.update(
                    i as int,
                    pre[i as int].with_active(make_active),
                ));
                assert(pre[i as int] == input[i as int]);
                assert(stored.deep_view() =~= target.subrange(0, i + 1) + input.skip(i + 1));
            }
        }
        self.profiles = stored;
        proof {
            assert(self@.profiles =~= target);
            assert(final(self)@ =~= (CoreView { profiles: target, ..old(self)@ }));
            assert(at_most_one_active(target));
            assert(some_active(target)) by {
                assert(target[keep as int].active);
            }
        }
    }

    /// Deletes the named profile. If the removed profile was active and
    /// profiles remain, the first remaining profile becomes active. Fails,
    /// changing nothing, when no profile has that id.
    pub fn delete_profile(&mut self, id: &str) -> (r: Result<(), CoreError>)
        requires
            old(self)@.inv(),
        ensures
            final(self)@.inv(),
            r is Ok <==> find_id_idx(old(self)@.profiles, id@) >= 0,
            r matches Err(e) ==> e is ProfileNotFound && final(self)@ == old(self)@,
            r is Ok ==> final(self)@ == (CoreView {
                profiles: delete_spec(old(self)@.profiles, find_id_idx(old(self)@.profiles, id@)),
                ..old(self)@
            }),
    {
        proof {
            lemma_find_id_idx(self@.profiles, id@);
        }
        let idc = crate::text::str_to_chars(id);
        let n = self.profiles.len();
        let mut found: Option<usize> = None;
        for i in 0..n
            invariant
                n == self.profiles@.len(),
                idc@ == id@,
                match found {
                    Some(w) => w < i && self@.profiles[w as int].id == id@ && (forall|j: int|
                        0 <= j < w ==> (#[trigger] self@.profiles[j]).id != id@),
                    None => forall|j: int| 0 <= j < i ==> (#[trigger] self@.profiles[j]).id != id@,
                },
        {
            if found.is_none() {
                proof {
                    assert(self@.profiles[i as int] == self.profiles@[i as int]@);
                }
                let pid = crate::text::str_to_chars(self.profiles[i].id.as_str());
                if crate::text::eq_chars(pid.as_slice(), idc.as_slice()) {
                    found = Some(i);
                }
            }
        }
        let w = match found {
            None => {
                proof {
                    let f = find_id_idx(self@.profiles, id@);
                    if f >= 0 {
                        assert(self@.profiles[f].id == id@);
                    }
                }
                return Err(CoreError::ProfileNotFound);
            },
            Some(w) => w,
        };
        proof {
            let f = find_id_idx(self@.profiles, id@);
            if f < w {
                assert(self@.profiles[f].id == id@);
            }
            if f > w {
                assert(self@.profiles[w as int].id != id@);
            }
            assert(f == w);
        }
        let ghost pre = self@.profiles;
        let removed_active = self.profiles[w].active;
        proof {
            assert(pre[w as int] == self.profiles@[w as int]@);
        }
        self.profiles.remove(w);
        proof {
            assert(self@.profiles =~= pre.remove(w as int));
        }
        if removed_active && self.profiles.len() > 0 {
            let ghost mid = self@.profiles;
            set_profile_active(&mut self.profiles, 0, true);
            proof {
                assert(self@.profiles =~= mid.update(0, mid[0].with_active(true)));
            }
        }
        proof {
            let target = delete_spec(pre, w as int);
            assert(self@.profiles =~= target);
            assert(final(self)@ =~= (CoreView { profiles: target, ..old(self)@ }));
            lemma_delete_profiles_ok(pre, w as int);
        }
        Ok(())
    }
}

/// Sets one profile's active flag in place.
fn set_profile_active(profiles: &mut Vec<Profile>, i: usize, active: bool)
    requires
        i < old(profiles)@.len(),
    ensures
        final(profiles).deep_view() == old(profiles).deep_view().update(
            i as int,
            old(profiles).deep_view()[i as int].with_active(active),
        ),
        final(profiles)@.len() == old(profiles)@.len(),
{
    let mut p = profiles.remove(i);
    let ghost pv = p@;
    p.active = active;
    proof {
        assert(p@ =~= pv.with_active(active));
    }
    profiles.insert(i, p);
    proof {
        let old_deep = old(profiles).deep_view();
        assert(profiles.deep_view() =~~= old_deep.update(
            i as int,
            old_deep[i as int].with_active(active),
        ));
    }
}

/// Deleting a profile keeps the invariant; when the removed profile was
/// active and profiles remain, exactly one remaining profile is active.
pub proof fn lemma_delete_profiles_ok(s: Seq<ProfileView>, i: int)
    requires
        profiles_ok(s),
        0 <= i < s.len(),
    ensures
        profiles_ok(delete_spec(s, i)),
        s[i].active && s.len() > 1 ==> delete_spec(s, i)[0].active && (forall|j: int|
            1 <= j < delete_spec(s, i).len() ==> !(#[trigger] delete_spec(s, i)[j]).active),
        s.len() == 1 ==> delete_spec(s, i).len() == 0,
{
    let removed = s.remove(i);
    assert(removed.len() == s.len() - 1);
    if s[i].active && removed.len() > 0 {
        let t = removed.update(0, removed[0].with_active(true));
        assert forall|j: int| 1 <= j < t.len() implies !(#[trigger] t[j]).active by {
            if j < i {
                assert(t[j] == s[j]);
            } else {
                assert(t[j] == s[j + 1]);
            }
        }
        assert(t[0].active);
        assert(some_active(t));
        assert(at_most_one_active(t));
    } else {
        if !s[i].active && s.len() > 1 {
            let w = choose|w: int| 0 <= w < s.len() && s[w].active;
            assert(w != i);
            if w < i {
                assert(removed[w] == s[w]);
                assert(some_active(removed));
            } else {
                assert(removed[w - 1] == s[w]);
                assert(some_active(removed));
            }
        }
        assert forall|a: int, b: int|
            0 <= a < b < removed.len() implies !((#[trigger] removed[a]).active && (
        #[trigger] removed[b]).active) by {
            let sa = if a < i {
                a
            } else {
                a + 1
            };
            let sb = if b < i {
                b
            } else {
                b + 1
            };
            assert(removed[a] == s[sa]);
            assert(removed[b] == s[sb]);
        }
    }
}

} // verus!

verus! {

/// The profile a fresh import stores, before any id reuse.
pub open spec fn new_profile_view(
    pv: crate::profile::ParsedView,
    source_url: Seq<char>,
    content: Seq<char>,
    set_active: bool,
    updated_at: Seq<char>,
    id: Seq<char>,
) -> ProfileView {
    ProfileView {
        id,
        name: pv.name,
        source_url,
        updated_at,
        node_count: pv.node_count,
        group_count: pv.group_count,
        rule_count: pv.rule_count,
        active: set_active,
        proxy_groups: pv.proxy_groups,
        proxy_nodes: pv.proxy_nodes,
        rules: pv.rules,
        raw_yaml: content,
    }
}

/// Where an import lands: re-imports of a known source URL replace that
/// profile in place and keep its id; new sources are inserted first.
pub open spec fn import_place_spec(s: Seq<ProfileView>, p: ProfileView) -> (Seq<ProfileView>, int) {
    let j = find_url_idx(s, p.source_url);
    if j >= 0 {
        (s.update(j, ProfileView { id: s[j].id, ..p }), j)
    } else {
        (seq![p] + s, 0)
    }
}

/// Exactly the profile at `idx` active, all others inactive.
pub open spec fn activate_spec(s: Seq<ProfileView>, idx: int) -> Seq<ProfileView> {
    Seq::new(s.len(), |i: int| s[i].with_active(i == idx))
}

/// The profile set after an import: placed by [`import_place_spec`], then
/// made the sole active profile when requested or when nothing is active.
pub open spec fn import_result_spec(s: Seq<ProfileView>, p: ProfileView, set_active: bool) -> (
    Seq<ProfileView>,
    int,
) {
    let placed = import_place_spec(s, p);
    if set_active || !some_active(placed.0) {
        (activate_spec(placed.0, placed.1), placed.1)
    } else {
        placed
    }
}

/// A profile refreshed in place: same id, source and active flag; new
/// timestamp, counts and content.
pub open spec fn refresh_view(
    old: ProfileView,
    pv: crate::profile::ParsedView,
    updated_at: Seq<char>,
    content: Seq<char>,
) -> ProfileView {
    ProfileView {
        id: old.id,
        source_url: old.source_url,
        active: old.active,
        updated_at,
        raw_yaml: content,
        name: pv.name,
        node_count: pv.node_count,
        group_count: pv.group_count,
        rule_count: pv.rule_count,
        proxy_groups: pv.proxy_groups,
        proxy_nodes: pv.proxy_nodes,
        rules: pv.rules,
    }
}

impl Core {
    /// Stores a parsed profile: re-imports of a known source URL keep its id
    /// and replace it in place, new sources are inserted first; the stored
    /// profile becomes the sole active one when `set_active` is given or no
    /// profile is active. Returns the stored profile.
    pub fn import_parsed(
        &mut self,
        parsed: crate::profile::ParsedProfile,
        source_url: &str,
        content: &str,
        set_active: bool,
        updated_at: &str,
        now_unix: u64,
    ) -> (r: Profile)
        requires
            old(self)@.inv(),
        ensures
            final(self)@.inv(),
            ({
                let p = new_profile_view(
                    parsed@,
                    source_url@,
                    content@,
                    set_active,
                    updated_at@,
                    profile_id_spec(source_url@, now_unix),
                );
                let placed = import_result_spec(old(self)@.profiles, p, set_active);
                &&& final(self)@ == (CoreView { profiles: placed.0, ..old(self)@ })
                &&& r@ == placed.0[placed.1]
            }),
    {
        proof {
            lemma_find_url_idx(self@.profiles, source_url@);
        }
        let id = build_profile_id(source_url, now_unix);
        let profile = Profile {
            id,
            name: parsed.name,
            source_url: source_url.to_owned(),
            updated_at: updated_at.to_owned(),
            node_count: parsed.node_count,
            group_count: parsed.group_count,
            rule_count: parsed.rule_count,
            active: set_active,
            proxy_groups: parsed.proxy_groups,
            proxy_nodes: parsed.proxy_nodes,
            rules: parsed.rules,
            raw_yaml: content.to_owned(),
        };
        let ghost p = new_profile_view(
            parsed@,
            source_url@,
            content@,
            set_active,
            updated_at@,
            profile_id_spec(source_url@, now_unix),
        );
        proof {
            assert(profile@ =~~= p);
        }
        let urlc = crate::text::str_to_chars(source_url);
        let n = self.profiles.len();
        let mut found: Option<usize> = None;
        for i in 0..n
            invariant
                n == self.profiles@.len(),
                urlc@ == source_url@,
                match found {
                    Some(w) => w < i && self@.profiles[w as int].source_url == source_url@ && (
                    forall|j: int|
                        0 <= j < w ==> (#[trigger] self@.profiles[j]).source_url != source_url@),
                    None => forall|j: int|
                        0 <= j < i ==> (#[trigger] self@.profiles[j]).source_url != source_url@,
                },
        {
            if found.is_none() {
                proof {
                    assert(self@.profiles[i as int] == self.profiles@[i as int]@);
                }
                let pu = crate::text::str_to_chars(self.profiles[i].source_url.as_str());
                if crate::text::eq_chars(pu.as_slice(), urlc.as_slice()) {
                    found = Some(i);
                }
            }
        }
        let ghost s0 = self@.profiles;
        let idx: usize;
        match found {
            Some(w) => {
                proof {
                    let f = find_url_idx(s0, source_url@);
                    if f < w {
                        assert(s0[f].source_url == source_url@);
                    }
                    if f > w {
                        assert(s0[w as int].source_url != source_url@);
                    }
                    assert(f == w);
                }
                let kept_id = self.profiles[w].id.clone();
                let mut stored = profile;
                stored.id = kept_id;
                proof {
                    assert(stored@ =~~= (ProfileView { id: s0[w as int].id, ..p }));
                }
                self.profiles.set(w, stored);
                proof {
                    assert(self@.profiles =~~= s0.update(
                        w as int,
                        (ProfileView { id: s0[w as int].id, ..p }),
                    ));
                }
                idx = w;
            },
            None => {
                proof {
                    let f = find_url_idx(s0, source_url@);
                    if f >= 0 {
                        assert(s0[f].source_url == source_url@);
                    }
                    assert(f == -1);
                }
                self.profiles.insert(0, profile);
                proof {
                    assert(self@.profiles =~~= seq![p] + s0);
                }
                idx = 0;
            },
        }
        let ghost placed = self@.profiles;
        proof {
            assert(placed == import_place_spec(s0, p).0);
            assert(idx as int == import_place_spec(s0, p).1);
        }
        let n2 = self.profiles.len();
        let mut any_active = false;
        for i in 0..n2
            invariant
                n2 == self.profiles@.len(),
                self@.profiles == placed,
                any_active == exists|j: int|
                    0 <= j < i && (#[trigger] self@.profiles[j]).active,
        {
            proof {
                assert(self@.profiles[i as int] == self.profiles@[i as int]@);
            }
            if self.profiles[i].active {
                any_active = true;
            }
            proof {
                if any_active {
                    assert(exists|j: int| 0 <= j < i + 1 && (#[trigger] self@.profiles[j]).active);
                }
            }
        }
        proof {
            assert(any_active == some_active(placed));
        }
        if set_active || !any_active {
            let ghost target = activate_spec(placed, idx as int);
            for i in 0..n2
                invariant
                    n2 == self.profiles@.len(),
                    n2 == placed.len(),
                    idx < n2,
                    target == activate_spec(placed, idx as int),
                    self@.profiles =~= target.subrange(0, i as int) + placed.skip(i as int),
                    self@.running == old(self)@.running,
                    self@.system_proxy_enabled == old(self)@.system_proxy_enabled,
                    self@.config == old(self)@.config,
            {
                let make_active = i == idx;
                let ghost pre = self@.profiles;
                set_profile_active(&mut self.profiles, i, make_active);
                proof {
                    assert(self@.profiles =~= pre.update(
                        i as int,
                        pre[i as int].with_active(make_active),
                    ));
                    assert(pre[i as int] == placed[i as int]);
                    assert(self@.profiles =~= target.subrange(0, i + 1) + placed.skip(i + 1));
                }
            }
            proof {
                assert(self@.profiles =~= target);
                assert(at_most_one_active(target));
                assert(some_active(target)) by {
                    assert(target[idx as int].active);
                }
            }
        } else {
            proof {
                assert(at_most_one_active(placed)) by {
                    assert forall|a: int, b: int|
                        0 <= a < b < placed.len() implies !((#[trigger] placed[a]).active && (
                    #[trigger] placed[b]).active) by {
                        let j = find_url_idx(s0, p.source_url);
                        if j >= 0 {
                            if a != j && b != j {
                                assert(placed[a] == s0[a] && placed[b] == s0[b]);
                            }
                        } else {
                            if a >= 1 && b >= 1 {
                                assert(placed[a] == s0[a - 1] && placed[b] == s0[b - 1]);
                            }
                        }
                    }
                }
            }
        }
        proof {
            let placed_final = import_result_spec(s0, p, set_active);
            assert(self@.profiles =~= placed_final.0);
            assert(final(self)@ =~= (CoreView { profiles: placed_final.0, ..old(self)@ }));
            assert(self.profiles@.len() == placed_final.0.len());
            assert(idx as int == placed_final.1);
        }
        proof {
            assert(self@.profiles[idx as int] == self.profiles@[idx as int]@);
        }
        self.profiles[idx].duplicate()
    }

    /// Refreshes the named profile in place with freshly parsed content: id,
    /// source URL and active flag are preserved; timestamp, counts, lists
    /// and raw content are replaced. Fails, changing nothing, when no
    /// profile has that id.
    pub fn refresh_parsed(
        &mut self,
        id: &str,
        parsed: crate::profile::ParsedProfile,
        content: &str,
        updated_at: &str,
    ) -> (r: Result<Profile, CoreError>)
        requires
            old(self)@.inv(),
        ensures
            final(self)@.inv(),
            r is Ok <==> find_id_idx(old(self)@.profiles, id@) >= 0,
            r matches Err(e) ==> e is ProfileNotFound && final(self)@ == old(self)@,
            r matches Ok(p) ==> {
                let idx = find_id_idx(old(self)@.profiles, id@);
                let updated = refresh_view(
                    old(self)@.profiles[idx],
                    parsed@,
                    updated_at@,
                    content@,
                );
                &&& final(self)@ == (CoreView {
                    profiles: old(self)@.profiles.update(idx, updated),
                    ..old(self)@
                })
                &&& p@ == updated
            },
    {
        proof {
            lemma_find_id_idx(self@.profiles, id@);
        }
        let idc = crate::text::str_to_chars(id);
        let n = self.profiles.len();
        let mut found: Option<usize> = None;
        for i in 0..n
            invariant
                n == self.profiles@.len(),
                idc@ == id@,
                match found {
                    Some(w) => w < i && self@.profiles[w as int].id == id@ && (forall|j: int|
                        0 <= j < w ==> (#[trigger] self@.profiles[j]).id != id@),
                    None => forall|j: int| 0 <= j < i ==> (#[trigger] self@.profiles[j]).id != id@,
                },
        {
            if found.is_none() {
                proof {
                    assert(self@.profiles[i as int] == self.profiles@[i as int]@);
                }
                let pid = crate::text::str_to_chars(self.profiles[i].id.as_str());
                if crate::text::eq_chars(pid.as_slice(), idc.as_slice()) {
                    found = Some(i);
                }
            }
        }
        let w = match found {
            None => {
                proof {
                    let f = find_id_idx(self@.profiles, id@);
                    if f >= 0 {
                        assert(self@.profiles[f].id == id@);
                    }
                }
                return Err(CoreError::ProfileNotFound);
            },
            Some(w) => w,
        };
        proof {
            let f = find_id_idx(self@.profiles, id@);
            if f < w {
                assert(self@.profiles[f].id == id@);
            }
            if f > w {
                assert(self@.profiles[w as int].id != id@);
            }
            assert(f == w);
        }
        let ghost s0 = self@.profiles;
        proof {
            assert(s0[w as int] == self.profiles@[w as int]@);
        }
        let existing = &self.profiles[w];
        let updated = Profile {
            id: existing.id.clone(),
            name: parsed.name,
            source_url: existing.source_url.clone(),
            updated_at: updated_at.to_owned(),
            node_count: parsed.node_count,
            group_count: parsed.group_count,
            rule_count: parsed.rule_count,
            active: existing.active,
            proxy_groups: parsed.proxy_groups,
            proxy_nodes: parsed.proxy_nodes,
            rules: parsed.rules,
            raw_yaml: content.to_owned(),
        };
        let ghost uv = refresh_view(s0[w as int], parsed@, updated_at@, content@);
        proof {
            assert(updated@ =~~= uv);
        }
        let result = updated.duplicate();
        self.profiles.set(w, updated);
        proof {
            assert(self@.profiles =~~= s0.update(w as int, uv));
            assert(final(self)@ =~= (CoreView { profiles: s0.update(w as int, uv), ..old(self)@ }));
            assert(at_most_one_active(self@.profiles)) by {
                assert forall|a: int, b: int|
                    0 <= a < b < self@.profiles.len() implies !((
                #[trigger] self@.profiles[a]).active && (#[trigger] self@.profiles[b]).active) by {
                    if a != w && b != w {
                        assert(self@.profiles[a] == s0[a] && self@.profiles[b] == s0[b]);
                    }
                }
            }
            if self@.profiles.len() > 0 {
                let x = choose|x: int| 0 <= x < s0.len() && s0[x].active;
                assert(self@.profiles[x].active);
            }
        }
        Ok(result)
    }
}

/// The deterministic part of a profile id: a small multiplicative hash of
/// the source URL, folded into 32 bits.
pub open spec fn url_hash_spec(s: Seq<char>, acc: int) -> int
    decreases s.len(),
{
    if s.len() == 0 {
        acc
    } else {
        url_hash_spec(s.drop_first(), ((acc * 31) + ((s[0] as u32) as int)) % 0x1_0000_0000)
    }
}

/// The id an import derives: `p-`, the import time in seconds, and a hash of
/// the source URL.
pub open spec fn profile_id_spec(source_url: Seq<char>, now_unix: u64) -> Seq<char> {
    "p-"@ + crate::text::dec_chars(now_unix as int) + "-"@ + crate::text::hex_chars(
        url_hash_spec(source_url, 5381),
    )
}

/// Builds a profile id from the source URL and the import time.
pub fn build_profile_id(source_url: &str, now_unix: u64) -> (r: String)
    ensures
        r@ == profile_id_spec(source_url@, now_unix),
{
    let chars = crate::text::str_to_chars(source_url);
    let n = chars.len();
    let mut acc: u64 = 5381;
    proof {
        assert(chars@.skip(0) =~= chars@);
    }
    for i in 0..n
        invariant
            n == chars@.len(),
            chars@ == source_url@,
            acc < 0x1_0000_0000,
            url_hash_spec(source_url@, 5381) == url_hash_spec(chars@.skip(i as int), acc as int),
    {
        let ghost rest = chars@.skip(i as int);
        proof {
            assert(rest[0] == chars@[i as int]);
            assert(rest.drop_first() =~= chars@.skip(i + 1));
        }
        let ghost acc0 = acc as int;
        let cv: u64 = (chars[i] as u32) as u64;
        acc = ((acc * 31) + cv) % 0x1_0000_0000;
        proof {
            assert(cv as int == (rest[0] as u32) as int);
            assert(acc as int == (acc0 * 31 + (rest[0] as u32) as int) % 0x1_0000_0000);
            assert(url_hash_spec(rest, acc0) == url_hash_spec(chars@.skip(i + 1), acc as int));
        }
    }
    let mut out = crate::text::str_to_chars("p-");
    let secs = crate::text::u64_to_dec(now_unix);
    crate::text::append_slice(&mut out, secs.as_slice());
    let dash = crate::text::str_to_chars("-");
    crate::text::append_slice(&mut out, dash.as_slice());
    let hx = crate::text::u64_to_hex(acc);
    crate::text::append_slice(&mut out, hx.as_slice());
    proof {
        assert(url_hash_spec(chars@.skip(n as int), acc as int) == acc as int);
        assert(out@ =~= profile_id_spec(source_url@, now_unix));
    }
    crate::text::chars_to_string(out.as_slice())
}

/// Importing a profile and then refreshing it preserves its id and active
/// flag; the timestamp changes whenever the refresh time differs, and the
/// content fields reflect the newly parsed document.
pub proof fn lemma_import_then_refresh(
    s: Seq<ProfileView>,
    p: ProfileView,
    set_active: bool,
    pv2: crate::profile::ParsedView,
    t2: Seq<char>,
    c2: Seq<char>,
)
    requires
        p.updated_at != t2,
    ensures
        ({
            let placed = import_result_spec(s, p, set_active);
            let s2 = placed.0.update(placed.1, refresh_view(placed.0[placed.1], pv2, t2, c2));
            &&& s2[placed.1].id == placed.0[placed.1].id
            &&& s2[placed.1].active == placed.0[placed.1].active
            &&& s2[placed.1].updated_at == t2
            &&& s2[placed.1].updated_at != placed.0[placed.1].updated_at
            &&& s2[placed.1].name == pv2.name
            &&& s2[placed.1].node_count == pv2.node_count
            &&& s2[placed.1].group_count == pv2.group_count
            &&& s2[placed.1].rule_count == pv2.rule_count
            &&& s2[placed.1].raw_yaml == c2
        }),
{
    lemma_find_url_idx(s, p.source_url);
    let placed = import_result_spec(s, p, set_active);
    assert(0 <= placed.1 < placed.0.len());
    assert(placed.0[placed.1].updated_at == p.updated_at);
}

} // verus!

verus! {

/// What a permitted start still needs: the runtime configuration is ready,
/// or the active profile's content must be fetched from its source first.
#[derive(Debug)]
pub enum StartPrep {
    Ready(String),
    NeedsFetch(String),
}

/// The entries a built runtime configuration holds, given the entries of
/// the parsed profile document: `mixed-port`, `allow-lan` and `mode` forced
/// to the orchestrator's configuration, and a default `external-controller`
/// added exactly when the document names none. This is the library's
/// runtime-config policy; [`force_runtime_keys`] is verified against it.
pub open spec fn runtime_entries(
    m0: Map<Seq<char>, crate::yaml::YamlEntryView>,
    config: Config,
) -> Map<Seq<char>, crate::yaml::YamlEntryView> {
    let forced = m0.insert(
        "mixed-port"@,
        crate::yaml::YamlEntryView::Unsigned(config.mixed_port as int),
    ).insert("allow-lan"@, crate::yaml::YamlEntryView::Flag(config.allow_lan)).insert(
        "mode"@,
        crate::yaml::YamlEntryView::Text(crate::proxy_mode_name_spec(config.mode)),
    );
    if forced.dom().contains("external-controller"@) {
        forced
    } else {
        forced.insert("external-controller"@, crate::yaml::YamlEntryView::Text("127.0.0.1:9097"@))
    }
}

/// Forces the orchestrator's keys into a parsed profile mapping: exactly the
/// [`runtime_entries`] policy, leaving every other entry as the document had
/// it.
pub fn force_runtime_keys(m: &mut serde_yaml::Mapping, config: &Config)
    ensures
        crate::yaml::mapping_entries(*final(m)) == runtime_entries(
            crate::yaml::mapping_entries(*old(m)),
            *config,
        ),
{
    crate::yaml::yaml_mapping_insert_u64(m, "mixed-port", config.mixed_port as u64);
    crate::yaml::yaml_mapping_insert_bool(m, "allow-lan", config.allow_lan);
    crate::yaml::yaml_mapping_insert_str(m, "mode", proxy_mode_name_str(&config.mode));
    if !crate::yaml::yaml_mapping_contains_key(m, "external-controller") {
        crate::yaml::yaml_mapping_insert_str(m, "external-controller", "127.0.0.1:9097");
    }
}

/// The outcome [`build_runtime_config_yaml`] owes for each input: exact
/// error kinds over the named acceptance of the document calls, and on
/// success a rendering of a mapping that carries the forced keys.
pub open spec fn runtime_config_outcome(
    doc: Seq<char>,
    config: Config,
    r: Result<String, CoreError>,
) -> bool {
    &&& !crate::yaml::yaml_parses(doc) ==> (r matches Err(e) && e is Parse)
    &&& crate::yaml::yaml_parses(doc) && !crate::yaml::yaml_doc_is_mapping(doc) ==> (r matches Err(
        e,
    ) && e is InvalidConfig)
    &&& !crate::yaml::yaml_doc_is_mapping(doc) ==> !(r is Ok)
    &&& crate::yaml::yaml_doc_is_mapping(doc) && r is Err ==> (r matches Err(e) && e
        is InvalidConfig)
    &&& r matches Ok(y) ==> exists|m: serde_yaml::Mapping|
        #![trigger crate::yaml::mapping_rendered(m)]
        {
            let entries = crate::yaml::mapping_entries(m);
            &&& crate::yaml::mapping_rendered(m) == Some(y@)
            &&& entries.dom().contains("mixed-port"@)
            &&& entries["mixed-port"@] == crate::yaml::YamlEntryView::Unsigned(
                config.mixed_port as int,
            )
            &&& entries.dom().contains("allow-lan"@)
            &&& entries["allow-lan"@] == crate::yaml::YamlEntryView::Flag(config.allow_lan)
            &&& entries.dom().contains("mode"@)
            &&& entries["mode"@] == crate::yaml::YamlEntryView::Text(
                crate::proxy_mode_name_spec(config.mode),
            )
            &&& entries.dom().contains("external-controller"@)
        }
}

/// Builds the kernel's runtime configuration from profile content: the
/// profile document with the mixed port, LAN flag and mode forced to the
/// orchestrator's configuration, and a default external controller added
/// when the document names none. Fails with `Parse` exactly on invalid
/// YAML, and with `InvalidConfig` when the root is no mapping or rendering
/// fails; every success renders a mapping carrying the forced keys.
pub fn build_runtime_config_yaml(profile_yaml: &str, config: &Config) -> (r: Result<
    String,
    CoreError,
>)
    ensures
        runtime_config_outcome(profile_yaml@, *config, r),
        r matches Err(e) ==> (e is Parse || e is InvalidConfig),
{
    let mut m = match crate::yaml::yaml_parse_mapping(profile_yaml) {
        Some(m) => m,
        None => {
            return if crate::yaml::yaml_parse_value(profile_yaml).is_none() {
                Err(CoreError::Parse("profile content is not valid YAML".to_owned()))
            } else {
                Err(
                    CoreError::InvalidConfig(
                        "mihomo config root must be a YAML mapping".to_owned(),
                    ),
                )
            };
        },
    };
    force_runtime_keys(&mut m, config);
    proof {
        lemma_runtime_entries_forced(crate::yaml::mapping_entries(m), *config);
    }
    match crate::yaml::yaml_mapping_render(&m) {
        Some(s) => Ok(s),
        None => Err(CoreError::InvalidConfig("failed to render runtime config".to_owned())),
    }
}

/// The policy's result always carries the four forced keys with the forced
/// values.
proof fn lemma_runtime_entries_forced(
    entries: Map<Seq<char>, crate::yaml::YamlEntryView>,
    config: Config,
)
    requires
        exists|m0: Map<Seq<char>, crate::yaml::YamlEntryView>| entries == #[trigger] runtime_entries(
            m0,
            config,
        ),
    ensures
        entries.dom().contains("mixed-port"@) && entries["mixed-port"@]
            == crate::yaml::YamlEntryView::Unsigned(config.mixed_port as int),
        entries.dom().contains("allow-lan"@) && entries["allow-lan"@]
            == crate::yaml::YamlEntryView::Flag(config.allow_lan),
        entries.dom().contains("mode"@) && entries["mode"@] == crate::yaml::YamlEntryView::Text(
            crate::proxy_mode_name_spec(config.mode),
        ),
        entries.dom().contains("external-controller"@),
{
    reveal_strlit("mixed-port");
    reveal_strlit("allow-lan");
    reveal_strlit("mode");
    reveal_strlit("external-controller");
    assert(("mixed-port"@).len() != ("allow-lan"@).len());
    assert(("mixed-port"@).len() != ("mode"@).len());
    assert(("mixed-port"@).len() != ("external-controller"@).len());
    assert(("allow-lan"@).len() != ("mode"@).len());
    assert(("allow-lan"@).len() != ("external-controller"@).len());
    assert(("mode"@).len() != ("external-controller"@).len());
}

fn proxy_mode_name_str(mode: &ProxyMode) -> (r: &'static str)
    ensures
        r@ == crate::proxy_mode_name_spec(*mode),
{
    crate::proxy_mode_name(mode)
}

impl Core {
    /// Checks that a start may proceed: fails with `AlreadyRunning` exactly
    /// while a live kernel is supervised; otherwise clears the running flag,
    /// demands an active profile, and yields either the source URL whose
    /// content must be fetched first (stored content blank) or exactly the
    /// runtime configuration built from the stored content and the current
    /// configuration.
    pub fn prepare_start(&mut self, kernel_alive: bool) -> (r: Result<StartPrep, CoreError>)
        requires
            old(self)@.inv(),
        ensures
            final(self)@.inv(),
            old(self)@.running && kernel_alive ==> (r matches Err(e) && e is AlreadyRunning
                && final(self)@ == old(self)@),
            !(old(self)@.running && kernel_alive) ==> final(self)@ == old(self)@.with_running(false)
                && match r {
                Err(e) => !(e is AlreadyRunning) && (e is InvalidConfig || e is Parse),
                Ok(prep) => {
                    let active = old(self)@.profiles[first_active_idx(old(self)@.profiles)];
                    &&& old(self)@.profiles.len() > 0
                    &&& match prep {
                        StartPrep::NeedsFetch(url) => url@ == active.source_url
                            && crate::text::trim_spec(active.raw_yaml).len() == 0,
                        StartPrep::Ready(_) => crate::text::trim_spec(active.raw_yaml).len() > 0,
                    }
                },
            },
            !(old(self)@.running && kernel_alive) ==> {
                if old(self)@.profiles.len() == 0 {
                    r matches Err(e) && e is InvalidConfig
                } else {
                    let active = old(self)@.profiles[first_active_idx(old(self)@.profiles)];
                    if crate::text::trim_spec(active.raw_yaml).len() == 0 {
                        r matches Ok(prep) && prep matches StartPrep::NeedsFetch(url) && url@
                            == active.source_url
                    } else {
                        match r {
                            Ok(prep) => prep matches StartPrep::Ready(cfg)
                                && runtime_config_outcome(
                                active.raw_yaml,
                                old(self)@.config,
                                Ok(cfg),
                            ),
                            Err(e) => runtime_config_outcome(
                                active.raw_yaml,
                                old(self)@.config,
                                Err(e),
                            ),
                        }
                    }
                }
            },
    {
        if self.running && kernel_alive {
            return Err(CoreError::AlreadyRunning);
        }
        self.running = false;
        proof {
            assert(self@ =~= old(self)@.with_running(false));
        }
        let active = match self.active_profile() {
            Some(p) => p,
            None => {
                return Err(
                    CoreError::InvalidConfig("no active profile to launch mihomo".to_owned()),
                );
            },
        };
        let raw = crate::text::str_to_chars(active.raw_yaml.as_str());
        let trimmed = crate::text::trim(raw.as_slice());
        if trimmed.len() == 0 {
            Ok(StartPrep::NeedsFetch(active.source_url))
        } else {
            match build_runtime_config_yaml(active.raw_yaml.as_str(), &self.config) {
                Ok(cfg) => Ok(StartPrep::Ready(cfg)),
                Err(e) => Err(e),
            }
        }
    }

    /// Records that the kernel was spawned and survived its grace period.
    pub fn confirm_started(&mut self)
        ensures
            final(self)@ == old(self)@.with_running(true),
    {
        self.running = true;
        assert(self@ =~= old(self)@.with_running(true));
    }

    /// Records that the supervised kernel is gone.
    pub fn mark_stopped(&mut self)
        ensures
            final(self)@ == old(self)@.with_running(false),
    {
        self.running = false;
        assert(self@ =~= old(self)@.with_running(false));
    }

    /// Records that the OS proxy settings were cleared.
    pub fn mark_proxy_disabled(&mut self)
        ensures
            final(self)@ == old(self)@.with_proxy_enabled(false),
    {
        self.system_proxy_enabled = false;
        assert(self@ =~= old(self)@.with_proxy_enabled(false));
    }

    /// Checks that a stop may proceed: fails with `NotRunning` when nothing
    /// is supervised and the kernel is not alive; otherwise reports whether
    /// the OS proxy must be cleared on the way down.
    pub fn stop_check(&self, kernel_alive: bool) -> (r: Result<bool, CoreError>)
        ensures
            r is Err <==> !self@.running && !kernel_alive,
            r matches Err(e) ==> e is NotRunning,
            r matches Ok(must_disable) ==> must_disable == self@.system_proxy_enabled,
    {
        if !self.running && !kernel_alive {
            return Err(CoreError::NotRunning);
        }
        Ok(self.system_proxy_enabled)
    }

    /// Where the system-proxy enable flow starts: nothing to do when the
    /// proxy is already considered enabled, otherwise the port to point the
    /// OS at.
    pub fn enable_proxy_port(&self) -> (r: Option<u16>)
        ensures
            self@.system_proxy_enabled ==> r is None,
            !self@.system_proxy_enabled ==> r == Some(self@.config.mixed_port),
    {
        if self.system_proxy_enabled {
            None
        } else {
            Some(self.config.mixed_port)
        }
    }

    /// The state after the OS proxy apply step reported back.
    pub open spec fn enable_finish_spec(v: CoreView, started_here: bool, apply_ok: bool) -> CoreView {
        if apply_ok {
            v.with_proxy_enabled(true)
        } else if started_here {
            v.with_running(false)
        } else {
            v
        }
    }

    /// Records the outcome of the OS proxy apply step: on success the proxy
    /// counts as enabled; on failure a kernel started solely for this call
    /// is considered stopped again, and the enabled flag stays off.
    pub fn finish_enable_system_proxy(&mut self, started_here: bool, apply_ok: bool)
        ensures
            final(self)@ == Core::enable_finish_spec(old(self)@, started_here, apply_ok),
    {
        if apply_ok {
            self.system_proxy_enabled = true;
            assert(self@ =~= old(self)@.with_proxy_enabled(true));
        } else if started_here {
            self.running = false;
            assert(self@ =~= old(self)@.with_running(false));
        } else {
            assert(self@ =~= old(self)@);
        }
    }

    /// What to clear on a disable: the OS proxy settings when they count as
    /// enabled, and the kernel when it counts as running.
    pub fn disable_plan(&self) -> (r: (bool, bool))
        ensures
            r.0 == self@.system_proxy_enabled,
            r.1 == self@.running,
    {
        (self.system_proxy_enabled, self.running)
    }
}

/// The state a completed disable leaves: proxy off, kernel stopped.
pub open spec fn disable_state_spec(v: CoreView) -> CoreView {
    v.with_proxy_enabled(false).with_running(false)
}

/// Disabling the system proxy is idempotent: after one completed disable,
/// a second run plans no OS work — so it cannot error — and leaves the
/// state exactly as the first one did.
pub proof fn lemma_disable_idempotent(v: CoreView)
    ensures
        disable_state_spec(disable_state_spec(v)) == disable_state_spec(v),
        !disable_state_spec(v).system_proxy_enabled,
        !disable_state_spec(v).running,
{
    assert(disable_state_spec(disable_state_spec(v)) =~= disable_state_spec(v));
}

/// Enabling the system proxy while the kernel is not running starts the
/// kernel first; if the OS mutation then fails, the kernel started solely
/// for this call is stopped again and the state is exactly the pre-call
/// state. On success only the two flags are raised.
pub proof fn lemma_enable_rollback(v: CoreView)
    requires
        !v.running,
        !v.system_proxy_enabled,
    ensures
        Core::enable_finish_spec(v.with_running(true), true, false) == v,
        Core::enable_finish_spec(v.with_running(true), true, true) == v.with_running(
            true,
        ).with_proxy_enabled(true),
{
    assert(Core::enable_finish_spec(v.with_running(true), true, false) =~= v);
}

impl Default for Core {
    /// Same as [`Core::new`].
    fn default() -> (r: Core)
        ensures
            r@.inv(),
            r@.profiles.len() == 0,
            !r@.running,
            !r@.system_proxy_enabled,
    {
        Core::new()
    }
}

} // verus!

verus! {

impl Core {
    /// Imports a profile from already-fetched subscription content: parses
    /// it (structured document first, URI list second), stamps it with the
    /// current local time and a salted id, and stores it. On a parse
    /// failure nothing changes.
    pub fn import_profile_url(
        &mut self,
        source_url: &str,
        content: &str,
        set_active: bool,
        now_unix: u64,
    ) -> (r: Result<Profile, CoreError>)
        requires
            old(self)@.inv(),
        ensures
            final(self)@.inv(),
            r matches Err(e) ==> e is InvalidProfile && final(self)@ == old(self)@,
            crate::ingest::sub_stage_ok(content@) ==> r is Ok,
            r matches Ok(p) ==> exists|pv: crate::profile::ParsedView, t: Seq<char>|
                #![trigger new_profile_view(pv, source_url@, content@, set_active, t, profile_id_spec(source_url@, now_unix))]
                {
                    let prof = new_profile_view(
                        pv,
                        source_url@,
                        content@,
                        set_active,
                        t,
                        profile_id_spec(source_url@, now_unix),
                    );
                    let placed = import_result_spec(old(self)@.profiles, prof, set_active);
                    &&& pv.wf()
                    &&& final(self)@ == (CoreView { profiles: placed.0, ..old(self)@ })
                    &&& p@ == placed.0[placed.1]
                },
    {
        let parsed = match crate::ingest::parse_profile_yaml(source_url, content) {
            Ok(parsed) => parsed,
            Err(e) => {
                return Err(e);
            },
        };
        let ghost pv = parsed@;
        let updated_at = crate::codec::current_local_timestamp();
        let ghost t = updated_at@;
        let stored = self.import_parsed(parsed, source_url, content, set_active, updated_at.as_str(), now_unix);
        proof {
            let prof = new_profile_view(
                pv,
                source_url@,
                content@,
                set_active,
                t,
                profile_id_spec(source_url@, now_unix),
            );
            let placed = import_result_spec(old(self)@.profiles, prof, set_active);
            assert(pv.wf() && final(self)@ == (CoreView { profiles: placed.0, ..old(self)@ })
                && stored@ == placed.0[placed.1]);
        }
        Ok(stored)
    }

    /// Refreshes the named profile from freshly fetched content: parses it
    /// and replaces the profile in place, preserving id, source URL and
    /// active flag. On an unknown id or a parse failure nothing changes.
    pub fn refresh_profile(&mut self, id: &str, content: &str) -> (r: Result<Profile, CoreError>)
        requires
            old(self)@.inv(),
        ensures
            final(self)@.inv(),
            r matches Err(e) ==> (e is ProfileNotFound || e is InvalidProfile) && final(self)@
                == old(self)@,
            r is Ok <== find_id_idx(old(self)@.profiles, id@) >= 0 && crate::ingest::sub_stage_ok(
                content@,
            ),
            r is Ok ==> find_id_idx(old(self)@.profiles, id@) >= 0,
            r matches Err(e) && e is ProfileNotFound ==> find_id_idx(old(self)@.profiles, id@) < 0,
            r matches Ok(p) ==> exists|pv: crate::profile::ParsedView, t: Seq<char>|
                #![trigger refresh_view(old(self)@.profiles[find_id_idx(old(self)@.profiles, id@)], pv, t, content@)]
                {
                    let idx = find_id_idx(old(self)@.profiles, id@);
                    let updated = refresh_view(
                        old(self)@.profiles[idx],
                        pv,
                        t,
                        content@,
                    );
                    &&& pv.wf()
                    &&& final(self)@ == (CoreView {
                        profiles: old(self)@.profiles.update(idx, updated),
                        ..old(self)@
                    })
                    &&& p@ == updated
                },
    {
        proof {
            lemma_find_id_idx(self@.profiles, id@);
        }
        let source_url = {
            let idc = crate::text::str_to_chars(id);
            let n = self.profiles.len();
            let mut found: Option<usize> = None;
            for i in 0..n
                invariant
                    n == self.profiles@.len(),
                    idc@ == id@,
                    match found {
                        Some(w) => w < i && self@.profiles[w as int].id == id@,
                        None => forall|j: int|
                            0 <= j < i ==> (#[trigger] self@.profiles[j]).id != id@,
                    },
            {
                if found.is_none() {
                    proof {
                        assert(self@.profiles[i as int] == self.profiles@[i as int]@);
                    }
                    let pid = crate::text::str_to_chars(self.profiles[i].id.as_str());
                    if crate::text::eq_chars(pid.as_slice(), idc.as_slice()) {
                        found = Some(i);
                    }
                }
            }
            match found {
                Some(w) => {
                    proof {
                        assert(self@.profiles[w as int] == self.profiles@[w as int]@);
                    }
                    self.profiles[w].source_url.clone()
                },
                None => {
                    proof {
                        let f = find_id_idx(self@.profiles, id@);
                        if f >= 0 {
                            assert(self@.profiles[f].id == id@);
                        }
                    }
                    return Err(CoreError::ProfileNotFound);
                },
            }
        };
        let parsed = match crate::ingest::parse_profile_yaml(source_url.as_str(), content) {
            Ok(parsed) => parsed,
            Err(e) => {
                return Err(e);
            },
        };
        let ghost pv = parsed@;
        let updated_at = crate::codec::current_local_timestamp();
        let ghost t = updated_at@;
        match self.refresh_parsed(id, parsed, content, updated_at.as_str()) {
            Ok(p) => {
                proof {
                    let idx = find_id_idx(old(self)@.profiles, id@);
                    let updated = refresh_view(old(self)@.profiles[idx], pv, t, content@);
                    assert(pv.wf() && final(self)@ == (CoreView {
                        profiles: old(self)@.profiles.update(idx, updated),
                        ..old(self)@
                    }) && p@ == updated);
                }
                Ok(p)
            },
            Err(e) => Err(e),
        }
    }
}

} // verus!
