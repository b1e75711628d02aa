//! The identities take turns: each call upstream uses the next one, and
//! after as many calls as there are identities every one was used once.

use vstd::prelude::*;
use crate::GithubDbView;

verus! {

impl GithubDbView {
    /// The mirror after `calls` identities were taken, one after the other.
    pub open spec fn octocrab_times(self, calls: nat) -> GithubDbView
        decreases calls,
    {
        if calls == 0 {
            self
        } else {
            self.octocrab_times((calls - 1) as nat).octocrab()
        }
    }
}

/// After `calls` identities were taken, the identities stand in their first
/// order, turned by `calls` places; so the identity that the call number
/// `calls` uses is the one that stood at the place `calls`, counted from
/// zero and starting over after the last.
pub proof fn lemma_turns(s: GithubDbView, calls: nat)
    requires
        s.octocrabs.len() > 0,
    ensures
        s.octocrab_times(calls).octocrabs == Seq::new(
            s.octocrabs.len(),
            |i: int| s.octocrabs[(i + calls) % s.octocrabs.len() as int],
        ),
        s.octocrab_times(calls).octocrabs[0] == s.octocrabs[calls as int % s.octocrabs.len() as int],
        s.octocrab_times(calls) == (GithubDbView {
            octocrabs: s.octocrab_times(calls).octocrabs,
            ..s
        }),
    decreases calls,
{
    let n = s.octocrabs.len() as int;
    let turned = Seq::new(s.octocrabs.len(), |i: int| s.octocrabs[(i + calls) % n]);
    if calls == 0 {
        assert forall|i: int| 0 <= i < n implies s.octocrabs[i] == #[trigger] turned[i] by {
            vstd::arithmetic::div_mod::lemma_small_mod(i as nat, n as nat);
        }
        assert(s.octocrabs =~= turned);
    } else {
        lemma_turns(s, (calls - 1) as nat);
        let before = s.octocrab_times((calls - 1) as nat).octocrabs;
        let after = s.octocrab_times(calls).octocrabs;
        assert forall|i: int| 0 <= i < n implies after[i] == #[trigger] turned[i] by {
            if i < n - 1 {
                assert(after[i] == before[i + 1]);
            } else {
                assert(after[i] == before[0]);
                vstd::arithmetic::div_mod::lemma_mod_add_multiples_vanish(calls - 1, n);
                assert((n - 1 + calls) % n == (calls - 1) % n);
                assert((0 + (calls - 1)) % n == (calls - 1) % n);
            }
        }
        assert(after =~= turned);
    }
}

/// After as many calls as there are identities, every identity was used
/// once and the identities stand in their first order again.
pub proof fn lemma_full_turn(s: GithubDbView)
    requires
        s.octocrabs.len() > 0,
    ensures
        s.octocrab_times(s.octocrabs.len()) == s,
        forall|i: int|
            0 <= i < s.octocrabs.len() ==> exists|calls: nat|
                1 <= calls <= s.octocrabs.len() && s.octocrab_times(calls).octocrabs[0]
                    == #[trigger] s.octocrabs[i],
{
    let n = s.octocrabs.len() as int;
    lemma_turns(s, n as nat);
    assert forall|i: int| 0 <= i < n implies #[trigger] s.octocrab_times(n as nat).octocrabs[i]
        == s.octocrabs[i] by {
        vstd::arithmetic::div_mod::lemma_mod_add_multiples_vanish(i, n);
        vstd::arithmetic::div_mod::lemma_small_mod(i as nat, n as nat);
    }
    assert(s.octocrab_times(n as nat).octocrabs =~= s.octocrabs);
    assert forall|i: int| 0 <= i < n implies exists|calls: nat|
        1 <= calls <= n && s.octocrab_times(calls).octocrabs[0] == #[trigger] s.octocrabs[i] by {
        let calls: nat = if i == 0 {
            n as nat
        } else {
            i as nat
        };
        lemma_turns(s, calls);
        if i == 0 {
            vstd::arithmetic::div_mod::lemma_mod_self_0(n);
        } else {
            vstd::arithmetic::div_mod::lemma_small_mod(i as nat, n as nat);
        }
        assert(s.octocrab_times(calls).octocrabs[0] == s.octocrabs[i]);
    }
}

} // verus!
