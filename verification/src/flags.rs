//! Feature flags: a small named-switch store, off by default.

use vstd::prelude::*;
use vstd::string::StringExecFns;

verus! {

/// One named switch.
pub struct FlagEntry {
    pub name: String,
    pub enabled: bool,
}

/// Specification-level image of a switch.
#[verifier::ext_equal]
pub struct FlagView {
    pub name: Seq<char>,
    pub enabled: bool,
}

/// True when a switch of this name exists.
pub open spec fn has_flag_name(fs: Seq<FlagView>, name: Seq<char>) -> bool {
    exists|i: int| 0 <= i < fs.len() && fs[i].name == name
}

/// Index of the switch of this name; meaningful only when it exists
/// and names are unique.
pub open spec fn flag_index(fs: Seq<FlagView>, name: Seq<char>) -> int {
    choose|i: int| 0 <= i < fs.len() && fs[i].name == name
}

/// Whether the named feature is on: a feature without a switch is off.
pub open spec fn flag_enabled(fs: Seq<FlagView>, name: Seq<char>) -> bool {
    has_flag_name(fs, name) && fs[flag_index(fs, name)].enabled
}

/// If some switch at index `i` carries `name` and names are unique,
/// lookup by `name` lands exactly on index `i`.
proof fn lemma_flag_at(fs: Seq<FlagView>, i: int)
    requires
        forall|p: int, q: int| 0 <= p < q < fs.len() ==> fs[p].name != fs[q].name,
        0 <= i < fs.len(),
    ensures
        has_flag_name(fs, fs[i].name),
        flag_index(fs, fs[i].name) == i,
{
    let u = fs[i].name;
    assert(has_flag_name(fs, u));
    let j = flag_index(fs, u);
    if i < j {
        assert(fs[i].name != fs[j].name);
    } else if j < i {
        assert(fs[j].name != fs[i].name);
    }
}

/// The feature-flag store.
pub struct FeatureFlags {
    flags: Vec<FlagEntry>,
}

impl View for FeatureFlags {
    type V = Seq<FlagView>;

    closed spec fn view(&self) -> Seq<FlagView> {
        self.flags@.map_values(|f: FlagEntry| FlagView { name: f.name@, enabled: f.enabled })
    }
}

impl FeatureFlags {
    /// One switch per name.
    pub open spec fn wf(&self) -> bool {
        forall|p: int, q: int| 0 <= p < q < self@.len() ==> self@[p].name != self@[q].name
    }

    /// A fresh store with every known feature off.
    pub fn new() -> (s: Self)
        ensures
            s.wf(),
            !flag_enabled(s@, "new_payment_flow"@),
            !flag_enabled(s@, "enhanced_fraud_detection"@),
            forall|n: Seq<char>| !#[trigger] flag_enabled(s@, n),
    {
        let mut flags: Vec<FlagEntry> = Vec::new();
        flags.push(FlagEntry { name: String::from_str("new_payment_flow"), enabled: false });
        flags.push(
            FlagEntry { name: String::from_str("enhanced_fraud_detection"), enabled: false },
        );
        let s = FeatureFlags { flags };
        proof {
            reveal_strlit("new_payment_flow");
            reveal_strlit("enhanced_fraud_detection");
            assert(s@.len() == 2);
            assert(s@[0].name == "new_payment_flow"@);
            assert(s@[1].name == "enhanced_fraud_detection"@);
            assert(s@[0].name != s@[1].name);
            assert forall|n: Seq<char>| !#[trigger] flag_enabled(s@, n) by {
                if has_flag_name(s@, n) {
                    let i = flag_index(s@, n);
                    assert(!s@[i].enabled);
                }
            }
        }
        s
    }

    /// Index of the switch of this feature, if any.
    fn find_flag(&self, feature: &String) -> (r: Option<usize>)
        ensures
            match r {
                Some(i) => i < self@.len() && self@[i as int].name == feature@,
                None => !has_flag_name(self@, feature@),
            },
    {
        let mut i: usize = 0;
        while i < self.flags.len()
            invariant
                i <= self@.len(),
                self@.len() == self.flags@.len(),
                forall|j: int| 0 <= j < i ==> (#[trigger] self@[j]).name != feature@,
            decreases self@.len() - i,
        {
            if self.flags[i].name.eq(feature) {
                assert(self@[i as int].name == feature@);
                return Some(i);
            }
            i = i + 1;
        }
        None
    }

    /// Whether the named feature is on.
    pub fn is_enabled(&self, feature: &String) -> (r: bool)
        requires
            self.wf(),
        ensures
            r == flag_enabled(self@, feature@),
    {
        match self.find_flag(feature) {
            Some(i) => {
                proof {
                    lemma_flag_at(self@, i as int);
                }
                self.flags[i].enabled
            },
            None => false,
        }
    }

    /// Turns the named feature on, creating its switch if need be.
    pub fn enable(&mut self, feature: &String)
        requires
            old(self).wf(),
        ensures
            final(self).wf(),
            flag_enabled(final(self)@, feature@),
            forall|n: Seq<char>|
                n != feature@ ==> #[trigger] flag_enabled(final(self)@, n) == flag_enabled(
                    old(self)@,
                    n,
                ),
    {
        self.set_flag(feature, true);
    }

    /// Turns the named feature off, creating its switch if need be.
    pub fn disable(&mut self, feature: &String)
        requires
            old(self).wf(),
        ensures
            final(self).wf(),
            !flag_enabled(final(self)@, feature@),
            forall|n: Seq<char>|
                n != feature@ ==> #[trigger] flag_enabled(final(self)@, n) == flag_enabled(
                    old(self)@,
                    n,
                ),
    {
        self.set_flag(feature, false);
    }

    /// Sets the named switch, creating it if need be.
    fn set_flag(&mut self, feature: &String, value: bool)
        requires
            old(self).wf(),
        ensures
            final(self).wf(),
            flag_enabled(final(self)@, feature@) == value,
            forall|n: Seq<char>|
                n != feature@ ==> #[trigger] flag_enabled(final(self)@, n) == flag_enabled(
                    old(self)@,
                    n,
                ),
    {
        let ghost pre = self@;
        match self.find_flag(feature) {
            Some(i) => {
                proof {
                    lemma_flag_at(pre, i as int);
                }
                let name = crate::wallet::clone_string(&self.flags[i].name);
                self.flags.set(i, FlagEntry { name, enabled: value });
                proof {
                    let post = self@;
                    assert(post =~= pre.update(i as int, FlagView { name: feature@, enabled: value }));
                    assert forall|p: int, q: int|
                        0 <= p < q < post.len() implies post[p].name != post[q].name by {
                        assert(pre[p].name != pre[q].name);
                    }
                    lemma_flag_at(post, i as int);
                    assert forall|n: Seq<char>| n != feature@ implies #[trigger] flag_enabled(
                        post,
                        n,
                    ) == flag_enabled(pre, n) by {
                        if has_flag_name(pre, n) {
                            let j = flag_index(pre, n);
                            lemma_flag_at(pre, j);
                            assert(post[j] == pre[j]);
                            lemma_flag_at(post, j);
                        } else {
                            if has_flag_name(post, n) {
                                let j = flag_index(post, n);
                                assert(pre[j].name == n);
                                lemma_flag_at(pre, j);
                            }
                        }
                    }
                }
            },
            None => {
                self.flags.push(FlagEntry { name: crate::wallet::clone_string(feature), enabled: value });
                proof {
                    let post = self@;
                    assert(post =~= pre.push(FlagView { name: feature@, enabled: value }));
                    assert forall|p: int, q: int|
                        0 <= p < q < post.len() implies post[p].name != post[q].name by {
                        if q < pre.len() {
                            assert(pre[p].name != pre[q].name);
                        } else {
                            assert(!has_flag_name(pre, feature@));
                        }
                    }
                    lemma_flag_at(post, post.len() - 1);
                    assert forall|n: Seq<char>| n != feature@ implies #[trigger] flag_enabled(
                        post,
                        n,
                    ) == flag_enabled(pre, n) by {
                        if has_flag_name(pre, n) {
                            let j = flag_index(pre, n);
                            lemma_flag_at(pre, j);
                            assert(post[j] == pre[j]);
                            lemma_flag_at(post, j);
                        } else {
                            if has_flag_name(post, n) {
                                let j = flag_index(post, n);
                                if j < pre.len() {
                                    assert(pre[j].name == n);
                                    lemma_flag_at(pre, j);
                                }
                            }
                        }
                    }
                }
            },
        }
    }
}

} // verus!
