//! What connected machines tell each other: repo announcements, status reports
//! and memberships.

use vstd::prelude::*;

use crate::config::path::bytes_to_vec;
use crate::config::state::membership::{Membership, MembershipView};
use crate::config::state::repo::RepoId;
use crate::order::{Duplicate, Same, same_text};

verus! {

/// Op heads by content.
pub open spec fn heads_view(heads: Seq<Vec<u8>>) -> Seq<Seq<u8>> {
    heads.map_values(|head: Vec<u8>| head@)
}

/// Copies op heads.
pub fn duplicate_heads(heads: &Vec<Vec<u8>>) -> (copy: Vec<Vec<u8>>)
    ensures
        heads_view(copy@) == heads_view(heads@),
{
    let mut copy: Vec<Vec<u8>> = Vec::new();
    let mut i: usize = 0;
    assert(heads_view(copy@) =~= heads_view(heads@).take(0));
    while i < heads.len()
        invariant
            i <= heads@.len(),
            heads_view(copy@) == heads_view(heads@).take(i as int),
        decreases heads@.len() - i,
    {
        let head = bytes_to_vec(heads[i].as_slice());
        let ghost before = copy@;
        copy.push(head);
        assert(heads_view(copy@) =~= heads_view(before).push(heads@[i as int]@));
        assert(heads_view(heads@).take(i + 1) =~= heads_view(heads@).take(i as int).push(
            heads@[i as int]@,
        ));
        i = i + 1;
    }
    assert(heads_view(heads@).take(i as int) =~= heads_view(heads@));
    copy
}

/// A repo's current op heads, announced by a machine that holds it.
pub struct Announce {
    pub name: String,
    pub id: RepoId,
    /// Position in the announcing machine's announcements, so receivers can
    /// discard reordered ones.
    pub seq: u64,
    /// The op heads; none retracts the repo.
    pub heads: Vec<Vec<u8>>,
    /// Whether the announced instance is colocated with a git repo.
    pub colocated: bool,
}

/// An announcement by content.
#[verifier::ext_equal]
pub struct AnnounceView {
    pub name: Seq<char>,
    pub id: Seq<char>,
    pub seq: nat,
    pub heads: Seq<Seq<u8>>,
    pub colocated: bool,
}

impl View for Announce {
    type V = AnnounceView;

    open spec fn view(&self) -> AnnounceView {
        AnnounceView {
            name: self.name@,
            id: self.id@,
            seq: self.seq as nat,
            heads: heads_view(self.heads@),
            colocated: self.colocated,
        }
    }
}

impl Duplicate for Announce {
    fn duplicate(&self) -> (copy: Self) {
        Announce {
            name: self.name.clone(),
            id: self.id.duplicate(),
            seq: self.seq,
            heads: duplicate_heads(&self.heads),
            colocated: self.colocated,
        }
    }
}

/// How a repo fares on a machine.
#[derive(Clone, Copy, PartialEq, Eq, Structural, Debug)]
pub enum RepoHealthState {
    Healthy,
    Failed,
    Missing,
    /// Sync is paused by a colocation conflict.
    Paused,
}

/// A repo's health, as peers see it.
#[derive(PartialEq, Eq, Debug)]
pub struct RepoHealth {
    pub name: String,
    pub state: RepoHealthState,
}

/// A repo's health by content.
#[verifier::ext_equal]
pub struct RepoHealthView {
    pub name: Seq<char>,
    pub state: RepoHealthState,
}

impl View for RepoHealth {
    type V = RepoHealthView;

    open spec fn view(&self) -> RepoHealthView {
        RepoHealthView { name: self.name@, state: self.state }
    }
}

impl Duplicate for RepoHealth {
    fn duplicate(&self) -> (copy: Self) {
        RepoHealth { name: self.name.clone(), state: self.state }
    }
}

/// Repo healths by content.
pub open spec fn healths_view(repos: Seq<RepoHealth>) -> Seq<RepoHealthView> {
    repos.map_values(|repo: RepoHealth| repo@)
}

/// What a machine tells its peers about itself.
#[derive(PartialEq, Eq, Debug)]
pub struct StatusReport {
    pub daemon_version: String,
    pub jj_version: Option<String>,
    pub repos: Vec<RepoHealth>,
}

/// A status report by content.
#[verifier::ext_equal]
pub struct StatusReportView {
    pub daemon_version: Seq<char>,
    pub jj_version: Option<Seq<char>>,
    pub repos: Seq<RepoHealthView>,
}

/// An optional text by content.
pub open spec fn text_view(text: Option<String>) -> Option<Seq<char>> {
    match text {
        Some(t) => Some(t@),
        None => None,
    }
}

impl View for StatusReport {
    type V = StatusReportView;

    open spec fn view(&self) -> StatusReportView {
        StatusReportView {
            daemon_version: self.daemon_version@,
            jj_version: text_view(self.jj_version),
            repos: healths_view(self.repos@),
        }
    }
}

impl Duplicate for StatusReport {
    fn duplicate(&self) -> (copy: Self) {
        let mut repos: Vec<RepoHealth> = Vec::new();
        let mut i: usize = 0;
        assert(healths_view(repos@) =~= healths_view(self.repos@).take(0));
        while i < self.repos.len()
            invariant
                i <= self.repos@.len(),
                healths_view(repos@) == healths_view(self.repos@).take(i as int),
            decreases self.repos@.len() - i,
        {
            let ghost before = repos@;
            repos.push(self.repos[i].duplicate());
            assert(healths_view(repos@) =~= healths_view(before).push(self.repos@[i as int]@));
            assert(healths_view(self.repos@).take(i + 1) =~= healths_view(self.repos@).take(
                i as int,
            ).push(self.repos@[i as int]@));
            i = i + 1;
        }
        assert(healths_view(self.repos@).take(i as int) =~= healths_view(self.repos@));
        StatusReport {
            daemon_version: self.daemon_version.clone(),
            jj_version: match &self.jj_version {
                Some(version) => Some(version.clone()),
                None => None,
            },
            repos,
        }
    }
}

/// Whether two optional texts are equal.
fn same_optional(a: &Option<String>, b: &Option<String>) -> (same: bool)
    ensures
        same == (text_view(*a) == text_view(*b)),
{
    match (a, b) {
        (Some(x), Some(y)) => same_text(x.as_str(), y.as_str()),
        (None, None) => true,
        _ => false,
    }
}

impl Same for StatusReport {
    fn same(&self, other: &Self) -> (same: bool) {
        if !same_text(self.daemon_version.as_str(), other.daemon_version.as_str())
            || !same_optional(&self.jj_version, &other.jj_version) || self.repos.len()
            != other.repos.len() {
            assert(healths_view(self.repos@).len() == self.repos@.len());
            assert(healths_view(other.repos@).len() == other.repos@.len());
            return false;
        }
        let mut i: usize = 0;
        while i < self.repos.len()
            invariant
                i <= self.repos@.len(),
                self.repos@.len() == other.repos@.len(),
                forall|j: int| 0 <= j < i ==> self.repos@[j]@ == other.repos@[j]@,
            decreases self.repos@.len() - i,
        {
            if self.repos[i].state != other.repos[i].state || !same_text(
                self.repos[i].name.as_str(),
                other.repos[i].name.as_str(),
            ) {
                assert(healths_view(self.repos@)[i as int] != healths_view(other.repos@)[i as int]);
                return false;
            }
            i = i + 1;
        }
        assert(healths_view(self.repos@) =~= healths_view(other.repos@));
        true
    }
}

/// A message to a connected peer.
pub enum UniMessage {
    Membership(Membership),
    Announce(Announce),
    Status(StatusReport),
}

/// A message by content.
pub enum MessageView {
    Membership(MembershipView),
    Announce(AnnounceView),
    Status(StatusReportView),
}

impl View for UniMessage {
    type V = MessageView;

    open spec fn view(&self) -> MessageView {
        match self {
            UniMessage::Membership(m) => MessageView::Membership(m@),
            UniMessage::Announce(a) => MessageView::Announce(a@),
            UniMessage::Status(s) => MessageView::Status(s@),
        }
    }
}

} // verus!
