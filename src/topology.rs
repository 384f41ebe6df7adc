use vstd::prelude::*;

use crate::config::{AsConfig, TopologyConfig};
use crate::error::ConfigError;
use crate::ident::{isd_as_result, link_result, parse_isd_as, parse_link_spec, IsdAs};

verus! {

/// An autonomous system of the topology.
#[derive(Debug, Clone, Copy, PartialEq, Eq, Structural)]
pub struct AsNode {
    pub id: IsdAs,
    pub is_core: bool,
}

/// A link between two ASes of the topology. Parallel links between the same
/// pair are allowed: they model several physical interconnects.
#[derive(Debug, Clone, Copy, PartialEq, Eq, Structural)]
pub struct Link {
    pub from: IsdAs,
    pub to: IsdAs,
}

/// The mathematical content of a topology: its ASes in insertion order and
/// its links in insertion order.
pub struct TopologyView {
    pub ases: Seq<AsNode>,
    pub links: Seq<Link>,
}

impl TopologyView {
    pub open spec fn empty() -> TopologyView {
        TopologyView { ases: Seq::empty(), links: Seq::empty() }
    }

    pub open spec fn has_as(self, id: IsdAs) -> bool {
        exists|i: int| 0 <= i < self.ases.len() && (#[trigger] self.ases[i]).id == id
    }

    /// AS identifiers are unique and every link joins two known ASes.
    pub open spec fn wf(self) -> bool {
        &&& forall|i: int, j: int|
            0 <= i < self.ases.len() && 0 <= j < self.ases.len() && i != j ==> (
            #[trigger] self.ases[i]).id != (#[trigger] self.ases[j]).id
        &&& forall|k: int|
            0 <= k < self.links.len() ==> self.has_as((#[trigger] self.links[k]).from)
                && self.has_as(self.links[k].to)
    }

    /// Adding an AS: refused when its identifier is already present.
    pub open spec fn add_as(self, id: IsdAs, is_core: bool) -> (Result<(), ConfigError>, TopologyView) {
        if self.has_as(id) {
            (Err(ConfigError::DuplicateAs), self)
        } else {
            (Ok(()), TopologyView { ases: self.ases.push(AsNode { id, is_core }), ..self })
        }
    }

    /// Adding a link: refused when either endpoint is unknown.
    pub open spec fn add_link(self, from: IsdAs, to: IsdAs) -> (Result<(), ConfigError>, TopologyView) {
        if self.has_as(from) && self.has_as(to) {
            (Ok(()), TopologyView { links: self.links.push(Link { from, to }), ..self })
        } else {
            (Err(ConfigError::UnknownAsInLink), self)
        }
    }

    /// Adding a link given as text.
    pub open spec fn add_link_text(self, s: Seq<char>) -> (Result<(), ConfigError>, TopologyView) {
        match link_result(s) {
            Ok((a, b)) => self.add_link(a, b),
            Err(e) => (Err(e), self),
        }
    }
}

/// The ASes of a topology section, added in order to an empty topology,
/// up to the first `n` of them.
pub open spec fn build_ases(ases: Seq<AsConfig>, n: nat) -> Result<TopologyView, ConfigError>
    decreases n,
{
    if n == 0 {
        Ok(TopologyView::empty())
    } else {
        match build_ases(ases, (n - 1) as nat) {
            Err(e) => Err(e),
            Ok(t) => match isd_as_result(ases[n - 1].isd_as@) {
                Err(e) => Err(e),
                Ok(id) => match t.add_as(id, ases[n - 1].is_core) {
                    (Ok(_), t2) => Ok(t2),
                    (Err(e), _) => Err(e),
                },
            },
        }
    }
}

/// The first `n` link texts added in order to `base`.
pub open spec fn build_links(base: TopologyView, links: Seq<String>, n: nat) -> Result<TopologyView, ConfigError>
    decreases n,
{
    if n == 0 {
        Ok(base)
    } else {
        match build_links(base, links, (n - 1) as nat) {
            Err(e) => Err(e),
            Ok(t) => match t.add_link_text(links[n - 1]@) {
                (Ok(_), t2) => Ok(t2),
                (Err(e), _) => Err(e),
            },
        }
    }
}

/// The topology a topology section describes, or the first error met.
pub open spec fn topology_of(config: TopologyConfig) -> Result<TopologyView, ConfigError> {
    match build_ases(config.ases@, config.ases@.len()) {
        Err(e) => Err(e),
        Ok(t) => build_links(t, config.links@, config.links@.len()),
    }
}

/// An AS-level topology, built by adding ASes and links one at a time.
#[derive(Debug, Clone)]
pub struct Topology {
    ases: Vec<AsNode>,
    links: Vec<Link>,
}

impl View for Topology {
    type V = TopologyView;

    closed spec fn view(&self) -> TopologyView {
        TopologyView { ases: self.ases@, links: self.links@ }
    }
}

impl Topology {
    pub fn new() -> (r: Topology)
        ensures
            r@ == TopologyView::empty(),
            r@.wf(),
    {
        let r = Topology { ases: Vec::new(), links: Vec::new() };
        assert(r@.ases =~= Seq::empty());
        assert(r@.links =~= Seq::empty());
        r
    }

    /// Whether an AS with this identifier was added.
    pub fn has_as(&self, id: IsdAs) -> (r: bool)
        ensures
            r == self@.has_as(id),
    {
        let mut i: usize = 0;
        while i < self.ases.len()
            invariant
                i <= self.ases@.len(),
                self@.ases == self.ases@,
                forall|j: int| 0 <= j < i ==> (#[trigger] self.ases@[j]).id != id,
            decreases self.ases.len() - i,
        {
            if self.ases[i].id == id {
                return true;
            }
            i = i + 1;
        }
        false
    }

    /// Adds an AS; fails with `DuplicateAs` when the identifier is present.
    pub fn add_as(&mut self, id: IsdAs, is_core: bool) -> (r: Result<(), ConfigError>)
        requires
            old(self)@.wf(),
        ensures
            (r, final(self)@) == old(self)@.add_as(id, is_core),
            final(self)@.wf(),
    {
        if self.has_as(id) {
            return Err(ConfigError::DuplicateAs);
        }
        let ghost before = self@;
        self.ases.push(AsNode { id, is_core });
        assert(self@.ases =~= before.ases.push(AsNode { id, is_core }));
        assert(self@ == before.add_as(id, is_core).1);
        proof {
            lemma_add_as_wf(before, id, is_core);
        }
        Ok(())
    }

    /// Adds a link between two identifiers; fails with `UnknownAsInLink`
    /// when either was not added before.
    pub fn add_link_between(&mut self, from: IsdAs, to: IsdAs) -> (r: Result<(), ConfigError>)
        requires
            old(self)@.wf(),
        ensures
            (r, final(self)@) == old(self)@.add_link(from, to),
            final(self)@.wf(),
    {
        if !self.has_as(from) || !self.has_as(to) {
            return Err(ConfigError::UnknownAsInLink);
        }
        let ghost before = self@;
        self.links.push(Link { from, to });
        assert(self@.links =~= before.links.push(Link { from, to }));
        assert(self@ == before.add_link(from, to).1);
        proof {
            lemma_add_link_wf(before, from, to);
        }
        Ok(())
    }

    /// Adds a link given as `<isd-as>:<isd-as>`; fails with `InvalidLinkSpec`
    /// when the text is malformed and with `UnknownAsInLink` when an endpoint
    /// is unknown.
    pub fn add_link(&mut self, text: &str) -> (r: Result<(), ConfigError>)
        requires
            old(self)@.wf(),
        ensures
            (r, final(self)@) == old(self)@.add_link_text(text@),
            final(self)@.wf(),
    {
        match parse_link_spec(text) {
            Ok((a, b)) => self.add_link_between(a, b),
            Err(e) => Err(e),
        }
    }

    pub fn as_count(&self) -> (r: usize)
        ensures
            r == self@.ases.len(),
    {
        self.ases.len()
    }

    pub fn link_count(&self) -> (r: usize)
        ensures
            r == self@.links.len(),
    {
        self.links.len()
    }

    /// The ASes in insertion order.
    pub fn ases(&self) -> (r: &Vec<AsNode>)
        ensures
            r@ == self@.ases,
    {
        &self.ases
    }

    /// The links in insertion order.
    pub fn links(&self) -> (r: &Vec<Link>)
        ensures
            r@ == self@.links,
    {
        &self.links
    }
}

proof fn lemma_add_as_wf(t: TopologyView, id: IsdAs, is_core: bool)
    requires
        t.wf(),
    ensures
        t.add_as(id, is_core).1.wf(),
{
    let t2 = t.add_as(id, is_core).1;
    if !t.has_as(id) {
        assert forall|k: int| 0 <= k < t2.links.len() implies t2.has_as(
            (#[trigger] t2.links[k]).from,
        ) && t2.has_as(t2.links[k].to) by {
            let l = t.links[k];
            let i = choose|i: int| 0 <= i < t.ases.len() && (#[trigger] t.ases[i]).id == l.from;
            let j = choose|j: int| 0 <= j < t.ases.len() && (#[trigger] t.ases[j]).id == l.to;
            assert(t2.ases[i] == t.ases[i]);
            assert(t2.ases[j] == t.ases[j]);
        }
    }
}

proof fn lemma_add_link_wf(t: TopologyView, from: IsdAs, to: IsdAs)
    requires
        t.wf(),
    ensures
        t.add_link(from, to).1.wf(),
{
    let t2 = t.add_link(from, to).1;
    if t.has_as(from) && t.has_as(to) {
        assert forall|k: int| 0 <= k < t2.links.len() implies t2.has_as(
            (#[trigger] t2.links[k]).from,
        ) && t2.has_as(t2.links[k].to) by {
            assert(t2.ases == t.ases);
            if k < t.links.len() {
                assert(t2.links[k] == t.links[k]);
                assert(t.has_as(t.links[k].from) && t.has_as(t.links[k].to));
            } else {
                assert(t2.links[k] == Link { from, to });
            }
        }
    }
}

proof fn lemma_build_ases_err_stays(ases: Seq<AsConfig>, n: nat, m: nat)
    requires
        n <= m,
        build_ases(ases, n) is Err,
    ensures
        build_ases(ases, m) == build_ases(ases, n),
    decreases m - n,
{
    if n < m {
        lemma_build_ases_err_stays(ases, n, (m - 1) as nat);
    }
}

proof fn lemma_build_links_err_stays(base: TopologyView, links: Seq<String>, n: nat, m: nat)
    requires
        n <= m,
        build_links(base, links, n) is Err,
    ensures
        build_links(base, links, m) == build_links(base, links, n),
    decreases m - n,
{
    if n < m {
        lemma_build_links_err_stays(base, links, n, (m - 1) as nat);
    }
}

/// Builds the topology a topology section describes: every AS in order,
/// then every link in order, stopping at the first error.
pub fn build_topology_from_config(config: &TopologyConfig) -> (r: Result<Topology, ConfigError>)
    ensures
        r matches Ok(t) ==> topology_of(*config) == Ok::<TopologyView, ConfigError>(t@) && t@.wf(),
        r matches Err(e) ==> topology_of(*config) == Err::<TopologyView, ConfigError>(e),
{
    let mut topo = Topology::new();
    let mut i: usize = 0;
    while i < config.ases.len()
        invariant
            i <= config.ases@.len(),
            build_ases(config.ases@, i as nat) == Ok::<TopologyView, ConfigError>(topo@),
            topo@.wf(),
        decreases config.ases.len() - i,
    {
        let ac = &config.ases[i];
        let id = match parse_isd_as(ac.isd_as.as_str()) {
            Ok(id) => id,
            Err(e) => {
                proof {
                    lemma_build_ases_err_stays(config.ases@, (i + 1) as nat, config.ases@.len());
                }
                return Err(e);
            },
        };
        match topo.add_as(id, ac.is_core) {
            Ok(()) => {},
            Err(e) => {
                proof {
                    lemma_build_ases_err_stays(config.ases@, (i + 1) as nat, config.ases@.len());
                }
                return Err(e);
            },
        }
        i = i + 1;
    }
    let ghost base = topo@;
    let mut k: usize = 0;
    while k < config.links.len()
        invariant
            k <= config.links@.len(),
            build_ases(config.ases@, config.ases@.len()) == Ok::<TopologyView, ConfigError>(base),
            build_links(base, config.links@, k as nat) == Ok::<TopologyView, ConfigError>(topo@),
            topo@.wf(),
        decreases config.links.len() - k,
    {
        match topo.add_link(config.links[k].as_str()) {
            Ok(()) => {},
            Err(e) => {
                proof {
                    lemma_build_links_err_stays(base, config.links@, (k + 1) as nat, config.links@.len());
                }
                return Err(e);
            },
        }
        k = k + 1;
    }
    Ok(topo)
}

/// Once an AS has been added, adding the same identifier again fails with
/// `DuplicateAs`, whatever the core flags.
pub proof fn lemma_add_as_twice_fails(t: TopologyView, id: IsdAs, first_core: bool, second_core: bool)
    requires
        t.wf(),
    ensures
        t.add_as(id, first_core).1.add_as(id, second_core).0 == Err::<(), ConfigError>(
            ConfigError::DuplicateAs,
        ),
{
    let t2 = t.add_as(id, first_core).1;
    if !t.has_as(id) {
        let n = t.ases.len() as int;
        assert(t2.ases[n].id == id);
    }
}

/// A link text whose endpoints were both added is accepted and adds exactly
/// one link; one that names an unknown endpoint fails with `UnknownAsInLink`
/// and leaves the topology as it was.
pub proof fn lemma_add_link_known_endpoints(t: TopologyView, s: Seq<char>)
    requires
        t.wf(),
        link_result(s) is Ok,
    ensures
        ({
            let (a, b) = link_result(s)->Ok_0;
            let (r, t2) = t.add_link_text(s);
            &&& t.has_as(a) && t.has_as(b) ==> r is Ok && t2.links.len() == t.links.len() + 1
                && t2.ases == t.ases
            &&& !(t.has_as(a) && t.has_as(b)) ==> r == Err::<(), ConfigError>(
                ConfigError::UnknownAsInLink,
            ) && t2 == t
        }),
{
}

} // verus!
