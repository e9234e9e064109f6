//! The order of a two-level crawl.
//!
//! A crawl starts at one page, the seed. The links of the seed, resolved
//! against its address, are the pages of the first level. Each of them is asked
//! for twice, one after the other: once for its links, once for its text. A
//! `Crawl` says which page to ask for next and takes what came back; it never
//! fetches anything itself. A fetch that fails adds nothing and stops nothing.

use crate::contacts::{contacts_in, find_contacts, lemma_phones_of_grow, phones_of, Contacts};
use crate::distinct::{extend_distinct, lemma_merge_distinct, merge_distinct};
use crate::links::{extract_links, links_in, process_links, resolved_links};
use vstd::prelude::*;
use vstd::string::StringExecFns;

verus! {

/// Where a crawl stands.
#[derive(Clone, Copy, Debug, PartialEq, Eq, Structural)]
pub enum Stage {
    /// The seed page is asked for.
    Seed,
    /// The page of the first level with this index is asked for, for its links.
    Links(usize),
    /// The page of the first level with this index is asked for, for its text.
    Body(usize),
    /// Nothing is asked for any more.
    Done,
}

/// Where a crawl stands, as a value: as `Stage`, with an index that is a
/// natural number.
pub enum Position {
    Seed,
    Links(nat),
    Body(nat),
    Done,
}

impl View for Stage {
    type V = Position;

    open spec fn view(&self) -> Position {
        match self {
            Stage::Seed => Position::Seed,
            Stage::Links(i) => Position::Links(*i as nat),
            Stage::Body(i) => Position::Body(*i as nat),
            Stage::Done => Position::Done,
        }
    }
}

/// What a page is asked for.
#[derive(Clone, Copy, Debug, PartialEq, Eq, Structural)]
pub enum Purpose {
    /// Its links are read.
    Links,
    /// Its text is kept.
    Body,
}

/// A page to fetch.
#[derive(Clone, Debug, PartialEq, Eq)]
pub struct Request {
    /// The address of the page.
    pub url: String,
    /// What the page is asked for.
    pub purpose: Purpose,
}

/// What recording a fetch did.
#[derive(Clone, Copy, Debug, PartialEq, Eq, Structural)]
pub enum Progress {
    /// The page was read for its links; this many were found on it.
    Links(usize),
    /// The text of the page was added.
    Body,
    /// The fetch had failed: nothing was added, the crawl went on.
    Skipped,
    /// The anchors of the page could not be selected: nothing changed.
    Refused,
    /// Nothing was asked for: nothing changed.
    Idle,
}

/// A crawl as a value: its seed, the pages of the first level, the links and
/// the text gathered so far, and where it stands.
pub struct CrawlState {
    pub seed: Seq<char>,
    pub level_one: Seq<Seq<char>>,
    pub links: Seq<Seq<char>>,
    pub html: Seq<char>,
    pub stage: Position,
}

/// The links of a fetched page as they are written on it. A page that could
/// not be fetched has none; `None` where the anchors cannot be selected.
pub open spec fn links_on(fetched: Option<Seq<char>>) -> Option<Seq<Seq<char>>> {
    match fetched {
        Some(body) => links_in(body),
        None => Some(Seq::empty()),
    }
}

impl CrawlState {
    /// A crawl that has not asked for anything yet.
    pub open spec fn start(seed: Seq<char>) -> CrawlState {
        CrawlState {
            seed,
            level_one: Seq::empty(),
            links: Seq::empty(),
            html: Seq::empty(),
            stage: Position::Seed,
        }
    }

    /// The stage points at a page of the first level, and no link is held twice.
    pub open spec fn wf(self) -> bool {
        &&& self.links.no_duplicates()
        &&& match self.stage {
            Position::Links(i) => i < self.level_one.len(),
            Position::Body(i) => i < self.level_one.len(),
            _ => true,
        }
    }

    /// The page that is asked for, with its purpose; `None` at the end.
    pub open spec fn pending(self) -> Option<(Seq<char>, Purpose)> {
        match self.stage {
            Position::Seed => Some((self.seed, Purpose::Links)),
            Position::Links(i) => Some((self.level_one[i as int], Purpose::Links)),
            Position::Body(i) => Some((self.level_one[i as int], Purpose::Body)),
            Position::Done => None,
        }
    }

    /// The stage that follows the page of the first level with index `i`.
    pub open spec fn stage_from(self, i: nat) -> Position {
        if i < self.level_one.len() {
            Position::Links(i)
        } else {
            Position::Done
        }
    }

    /// Whether what was fetched is refused: a page is read for its links, and
    /// its anchors cannot be selected.
    pub open spec fn refuses(self, fetched: Option<Seq<char>>) -> bool {
        (self.stage is Seed || self.stage is Links) && links_on(fetched) is None
    }

    /// The crawl after `fetched` has come back for the pending page: the text
    /// of the page, or `None` where the fetch failed.
    pub open spec fn record(self, fetched: Option<Seq<char>>) -> CrawlState {
        if self.refuses(fetched) {
            self
        } else {
            match self.stage {
                Position::Seed => {
                    let level_one = resolved_links(links_on(fetched)->0, self.seed);
                    CrawlState {
                        level_one,
                        links: merge_distinct(self.links, level_one),
                        stage: CrawlState { level_one, ..self }.stage_from(0),
                        ..self
                    }
                },
                Position::Links(i) => {
                    let found = resolved_links(links_on(fetched)->0, self.level_one[i as int]);
                    CrawlState {
                        links: merge_distinct(self.links, found),
                        stage: Position::Body(i),
                        ..self
                    }
                },
                Position::Body(i) => {
                    let html = match fetched {
                        Some(body) => self.html + body,
                        None => self.html,
                    };
                    CrawlState { html, stage: self.stage_from(i + 1), ..self }
                },
                Position::Done => self,
            }
        }
    }

    /// What recording `fetched` reports.
    pub open spec fn progress(self, fetched: Option<Seq<char>>) -> Progress {
        if self.refuses(fetched) {
            Progress::Refused
        } else {
            match self.stage {
                Position::Done => Progress::Idle,
                Position::Body(_) => if fetched is Some {
                    Progress::Body
                } else {
                    Progress::Skipped
                },
                _ => if fetched is Some {
                    Progress::Links(links_on(fetched)->0.len() as usize)
                } else {
                    Progress::Skipped
                },
            }
        }
    }

    /// How many fetches the crawl still asks for, once the seed page is in.
    pub open spec fn remaining(self) -> nat {
        match self.stage {
            Position::Seed => 0,
            Position::Links(i) => (2 * (self.level_one.len() - i)) as nat,
            Position::Body(i) => (2 * (self.level_one.len() - i) - 1) as nat,
            Position::Done => 0,
        }
    }
}

impl CrawlState {
    /// The crawl after the fetches `fetched` have come back one after the
    /// other, each for the page that was pending then.
    pub open spec fn run(self, fetched: Seq<Option<Seq<char>>>) -> CrawlState
        decreases fetched.len(),
    {
        if fetched.len() == 0 {
            self
        } else {
            self.run(fetched.drop_last()).record(fetched.last())
        }
    }

    /// A crawl at its start is well formed, and recording keeps it so.
    pub proof fn lemma_record_wf(self, fetched: Option<Seq<char>>)
        requires
            self.wf(),
        ensures
            CrawlState::start(self.seed).wf(),
            self.record(fetched).wf(),
    {
        if !self.refuses(fetched) {
            match self.stage {
                Position::Seed => {
                    lemma_merge_distinct(
                        self.links,
                        resolved_links(links_on(fetched)->0, self.seed),
                    );
                },
                Position::Links(i) => {
                    lemma_merge_distinct(
                        self.links,
                        resolved_links(links_on(fetched)->0, self.level_one[i as int]),
                    );
                },
                _ => {},
            }
        }
    }

    /// A fetch that failed is never refused. It adds nothing to the links and
    /// the text gathered so far and takes nothing away, and the crawl moves on
    /// as after a fetch that succeeded: to the same page's text after its
    /// links, to the next page after its text. Where the seed page fails there
    /// is no first level, and the crawl is over.
    pub proof fn lemma_record_failed(self)
        requires
            self.wf(),
        ensures
            !self.refuses(None),
            self.record(None).links == self.links,
            self.record(None).html == self.html,
            self.record(None).seed == self.seed,
            match self.stage {
                Position::Seed => self.record(None).level_one.len() == 0 && self.record(
                    None,
                ).stage is Done,
                Position::Links(i) => self.record(None).level_one == self.level_one
                    && self.record(None).stage == Position::Body(i),
                Position::Body(i) => self.record(None).level_one == self.level_one
                    && self.record(None).stage == self.stage_from(i + 1),
                Position::Done => self.record(None) == self,
            },
            self.stage !is Done ==> self.progress(None) == Progress::Skipped,
    {
        let none = Seq::<Seq<char>>::empty();
        match self.stage {
            Position::Seed => {
                assert(resolved_links(none, self.seed) =~= none);
            },
            Position::Links(i) => {
                assert(resolved_links(none, self.level_one[i as int]) =~= none);
            },
            _ => {},
        }
    }

    /// Whatever comes back, nothing gathered is lost: the links and the text of
    /// the crawl before stand unchanged at the head of those after. The seed
    /// stays, and so does the first level once the seed page has been recorded.
    pub proof fn lemma_record_grows(self, fetched: Option<Seq<char>>)
        requires
            self.wf(),
        ensures
            self.links.is_prefix_of(self.record(fetched).links),
            self.html.is_prefix_of(self.record(fetched).html),
            self.record(fetched).seed == self.seed,
            self.stage !is Seed ==> self.record(fetched).level_one == self.level_one,
    {
        if !self.refuses(fetched) {
            match self.stage {
                Position::Seed => {
                    lemma_merge_distinct(
                        self.links,
                        resolved_links(links_on(fetched)->0, self.seed),
                    );
                },
                Position::Links(i) => {
                    lemma_merge_distinct(
                        self.links,
                        resolved_links(links_on(fetched)->0, self.level_one[i as int]),
                    );
                },
                _ => {},
            }
        }
    }

    /// Whatever comes back, the phone numbers found so far stay found, in
    /// their order.
    pub proof fn lemma_record_keeps_phones(self, fetched: Option<Seq<char>>)
        requires
            self.wf(),
        ensures
            phones_of(self.links).is_prefix_of(phones_of(self.record(fetched).links)),
    {
        self.lemma_record_grows(fetched);
        let after = self.record(fetched).links;
        let more = after.skip(self.links.len() as int);
        assert(after =~= self.links + more);
        lemma_phones_of_grow(self.links, more);
    }

    /// The crawl ends: the seed page leaves two fetches for each page of the
    /// first level, every recording that is not refused leaves one fetch less,
    /// and the crawl is over exactly when none is left.
    pub proof fn lemma_record_counts_down(self, fetched: Option<Seq<char>>)
        requires
            self.wf(),
            !self.refuses(fetched),
        ensures
            self.stage is Seed ==> self.record(fetched).remaining() == 2 * self.record(
                fetched,
            ).level_one.len(),
            self.stage !is Seed && self.stage !is Done ==> self.record(fetched).remaining()
                == self.remaining() - 1,
            self.record(fetched).stage !is Seed,
            self.record(fetched).stage is Done <==> self.record(fetched).remaining() == 0,
    {
    }

    /// Visiting one page of the first level, for its links and then for its
    /// text, adds the links of the page, resolved against its address, and its
    /// text; a fetch that failed adds nothing.
    pub proof fn lemma_visit(
        self,
        i: nat,
        links_page: Option<Seq<char>>,
        body_page: Option<Seq<char>>,
    )
        requires
            self.wf(),
            self.stage == Position::Links(i),
            links_on(links_page) is Some,
        ensures
            self.record(links_page).record(body_page) == (CrawlState {
                links: merge_distinct(
                    self.links,
                    resolved_links(links_on(links_page)->0, self.level_one[i as int]),
                ),
                html: match body_page {
                    Some(body) => self.html + body,
                    None => self.html,
                },
                stage: self.stage_from(i + 1),
                ..self
            }),
    {
    }

    /// A run keeps the crawl well formed and loses nothing that was gathered.
    pub proof fn lemma_run(self, fetched: Seq<Option<Seq<char>>>)
        requires
            self.wf(),
        ensures
            self.run(fetched).wf(),
            self.run(fetched).seed == self.seed,
            self.links.is_prefix_of(self.run(fetched).links),
            self.html.is_prefix_of(self.run(fetched).html),
            self.stage !is Seed ==> self.run(fetched).level_one == self.level_one
                && self.run(fetched).stage !is Seed,
        decreases fetched.len(),
    {
        if fetched.len() > 0 {
            let before = self.run(fetched.drop_last());
            self.lemma_run(fetched.drop_last());
            before.lemma_record_wf(fetched.last());
            before.lemma_record_grows(fetched.last());
        }
    }

    /// A run in which no page is refused leaves one fetch less with each fetch
    /// that comes back, so it is over after as many fetches as were remaining,
    /// and not before.
    pub proof fn lemma_run_counts_down(self, fetched: Seq<Option<Seq<char>>>)
        requires
            self.wf(),
            self.stage !is Seed,
            fetched.len() <= self.remaining(),
            forall|k: int| 0 <= k < fetched.len() ==> links_on(#[trigger] fetched[k]) is Some,
        ensures
            self.run(fetched).remaining() == self.remaining() - fetched.len(),
            self.run(fetched).stage is Done <==> fetched.len() == self.remaining(),
        decreases fetched.len(),
    {
        if fetched.len() == 0 {
            self.lemma_run(fetched);
        } else {
            let init = fetched.drop_last();
            let before = self.run(init);
            assert forall|k: int| 0 <= k < init.len() implies links_on(#[trigger] init[k]) is Some by {
                assert(init[k] == fetched[k]);
            }
            self.lemma_run_counts_down(init);
            self.lemma_run(init);
            assert(links_on(fetched[fetched.len() - 1]) is Some);
            before.lemma_record_counts_down(fetched.last());
        }
    }
}

/// A crawl in progress.
pub struct Crawl {
    seed: String,
    level_one: Vec<String>,
    links: Vec<String>,
    html: String,
    stage: Stage,
}

impl View for Crawl {
    type V = CrawlState;

    closed spec fn view(&self) -> CrawlState {
        CrawlState {
            seed: self.seed@,
            level_one: self.level_one.deep_view(),
            links: self.links.deep_view(),
            html: self.html@,
            stage: self.stage@,
        }
    }
}

impl Crawl {
    #[verifier::type_invariant]
    spec fn inv(&self) -> bool {
        self@.wf()
    }

    /// A crawl that starts at `seed_url`. The seed page is pending.
    pub fn new(seed_url: String) -> (crawl: Crawl)
        ensures
            crawl@ == CrawlState::start(seed_url@),
            crawl@.wf(),
    {
        let crawl = Crawl {
            seed: seed_url,
            level_one: Vec::new(),
            links: Vec::new(),
            html: String::new(),
            stage: Stage::Seed,
        };
        assert(crawl.level_one.deep_view() =~= Seq::<Seq<char>>::empty());
        assert(crawl.links.deep_view() =~= Seq::<Seq<char>>::empty());
        crawl
    }

    /// The page to fetch next and what it is asked for; `None` when the crawl
    /// is over.
    pub fn pending(&self) -> (request: Option<Request>)
        ensures
            match request {
                Some(r) => self@.pending() == Some((r.url@, r.purpose)),
                None => self@.pending() is None,
            },
    {
        proof {
            use_type_invariant(self);
        }
        match self.stage {
            Stage::Seed => Some(Request { url: self.seed.clone(), purpose: Purpose::Links }),
            Stage::Links(i) => Some(
                Request { url: self.level_one[i].clone(), purpose: Purpose::Links },
            ),
            Stage::Body(i) => Some(
                Request { url: self.level_one[i].clone(), purpose: Purpose::Body },
            ),
            Stage::Done => None,
        }
    }

    /// Where the crawl stands.
    pub fn stage(&self) -> (stage: Stage)
        ensures
            stage@ == self@.stage,
    {
        self.stage
    }

    /// The address of the seed page.
    pub fn seed(&self) -> (seed: &str)
        ensures
            seed@ == self@.seed,
    {
        self.seed.as_str()
    }

    /// The pages of the first level, in the order in which they are asked for.
    pub fn level_one(&self) -> (pages: &Vec<String>)
        ensures
            pages.deep_view() == self@.level_one,
    {
        &self.level_one
    }

    /// The links gathered so far, each once.
    pub fn links(&self) -> (links: &Vec<String>)
        ensures
            links.deep_view() == self@.links,
            links.deep_view().no_duplicates(),
    {
        proof {
            use_type_invariant(self);
        }
        &self.links
    }

    /// The text gathered so far: the pages' texts, one after the other.
    pub fn html(&self) -> (html: &str)
        ensures
            html@ == self@.html,
    {
        self.html.as_str()
    }

    /// The contacts in what has been gathered so far: the e-mail addresses in
    /// the text, the phone numbers among the links. `None` only where the
    /// pattern of an e-mail address is refused.
    pub fn contacts(&self) -> (contacts: Option<Contacts>)
        ensures
            contacts.deep_view() == contacts_in(self@.html, self@.links),
    {
        find_contacts(self.html.as_str(), self.links.as_slice())
    }

    /// Takes what came back for the pending page: its text, or `None` where
    /// the fetch failed. A page asked for its links has them resolved against
    /// its own address and added to the links of the crawl; the links of the
    /// seed become the first level. A page asked for its text has it appended
    /// to the text of the crawl. Then the next page is pending.
    pub fn record(&mut self, fetched: Option<String>) -> (progress: Progress)
        ensures
            final(self)@ == old(self)@.record(fetched.deep_view()),
            final(self)@.wf(),
            progress == old(self)@.progress(fetched.deep_view()),
    {
        proof {
            use_type_invariant(&*self);
        }
        match self.stage {
            Stage::Seed => {
                match page_links(&fetched) {
                    Some(raw) => {
                        let count = raw.len();
                        let level_one = process_links(raw, self.seed.as_str());
                        let mut links: Vec<String> = Vec::new();
                        core::mem::swap(&mut links, &mut self.links);
                        proof {
                            lemma_merge_distinct(links.deep_view(), level_one.deep_view());
                        }
                        extend_distinct(&mut links, &level_one);
                        let stage = if level_one.len() > 0 {
                            Stage::Links(0)
                        } else {
                            Stage::Done
                        };
                        self.level_one = level_one;
                        self.links = links;
                        self.stage = stage;
                        if fetched.is_some() {
                            Progress::Links(count)
                        } else {
                            Progress::Skipped
                        }
                    },
                    None => Progress::Refused,
                }
            },
            Stage::Links(i) => {
                match page_links(&fetched) {
                    Some(raw) => {
                        let count = raw.len();
                        let found = process_links(raw, self.level_one[i].as_str());
                        let mut links: Vec<String> = Vec::new();
                        core::mem::swap(&mut links, &mut self.links);
                        proof {
                            lemma_merge_distinct(links.deep_view(), found.deep_view());
                        }
                        extend_distinct(&mut links, &found);
                        self.links = links;
                        self.stage = Stage::Body(i);
                        if fetched.is_some() {
                            Progress::Links(count)
                        } else {
                            Progress::Skipped
                        }
                    },
                    None => Progress::Refused,
                }
            },
            Stage::Body(i) => {
                assert(i < self.level_one.len());
                let stage = if i + 1 < self.level_one.len() {
                    Stage::Links(i + 1)
                } else {
                    Stage::Done
                };
                match fetched {
                    Some(body) => {
                        let mut html = String::new();
                        core::mem::swap(&mut html, &mut self.html);
                        html.append(body.as_str());
                        self.html = html;
                        self.stage = stage;
                        Progress::Body
                    },
                    None => {
                        self.stage = stage;
                        Progress::Skipped
                    },
                }
            },
            Stage::Done => Progress::Idle,
        }
    }
}

/// The links of a fetched page as they are written on it; a page that could
/// not be fetched has none.
pub fn page_links(fetched: &Option<String>) -> (found: Option<Vec<String>>)
    ensures
        found.deep_view() == links_on(fetched.deep_view()),
{
    match fetched {
        Some(body) => extract_links(body.as_str()),
        None => {
            let none: Vec<String> = Vec::new();
            assert(none.deep_view() =~= Seq::<Seq<char>>::empty());
            Some(none)
        },
    }
}

} // verus!
