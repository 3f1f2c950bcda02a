//! The session state machine: what each key press does to the view and
//! which score change it asks the caller to store.

use vstd::prelude::*;
use crate::models::{Candidate, Question, Response, Responses, TopicData};
use crate::text::spec_lowercase;
use rand::seq::SliceRandom;
use crate::tui::app::{
    Filter, FilterMode, FilterSource, SearchScope, SearchState, question_matches_query,
    spec_question_matches, spec_search_matches, clamp_cursor,
};

verus! {

/// A key press, as far as the session tells keys apart.
#[derive(Clone, Copy, Debug, PartialEq, Eq, Structural)]
pub enum Key {
    Char(char),
    Esc,
    Enter,
    Tab,
    BackTab,
    Backspace,
    Up,
    Down,
    Left,
    Right,
    Other,
}

/// A change of the stored scores that the caller is to carry out.
pub enum Effect {
    /// Store (or replace) the response.
    Save(Response),
    /// Delete the response of this candidate to this question.
    Delete { candidate_id: i64, question_id: String },
}

/// What an effect asks for, as plain values.
pub enum EffectView {
    Save { candidate_id: i64, question_id: Seq<char>, score: u8 },
    Delete { candidate_id: i64, question_id: Seq<char> },
}

impl Effect {
    pub open spec fn view(&self) -> EffectView {
        match self {
            Effect::Save(r) => EffectView::Save {
                candidate_id: r.candidate_id,
                question_id: r.question_id@,
                score: r.score,
            },
            Effect::Delete { candidate_id, question_id } => EffectView::Delete {
                candidate_id: *candidate_id,
                question_id: question_id@,
            },
        }
    }
}

pub open spec fn effect_view(e: Option<Effect>) -> Option<EffectView> {
    match e {
        Some(e) => Some(e@),
        None => None,
    }
}

/// A search, as plain values.
pub struct SearchView {
    pub scope: SearchScope,
    pub query: Seq<char>,
    pub matches: Seq<(usize, usize)>,
    pub cursor: int,
}

/// The session, as plain values.
pub struct AppView {
    pub candidate: Candidate,
    pub topics: Seq<TopicData>,
    pub responses: Map<Seq<char>, u8>,
    pub current_topic: int,
    pub current_question: int,
    pub scroll_offset: int,
    pub topic_table_offset: int,
    pub should_quit: bool,
    pub visible_card_count: int,
    pub visible_topic_count: int,
    pub filter: Filter,
    pub filter_mode: FilterMode,
    pub search: Option<SearchView>,
    pub key_seq: Option<char>,
}

pub open spec fn search_view(s: Option<SearchState>) -> Option<SearchView> {
    match s {
        Some(s) => Some(
            SearchView { scope: s.scope, query: s.query@, matches: s.matches@, cursor: s.cursor as int },
        ),
        None => None,
    }
}

/// An interview session.
pub struct AppState {
    pub candidate: Candidate,
    pub topics: Vec<TopicData>,
    pub responses: Responses,
    pub current_topic: usize,
    pub current_question: usize,
    pub scroll_offset: usize,
    pub topic_table_offset: usize,
    pub should_quit: bool,
    /// How many question cards the last drawn screen had room for.
    pub visible_card_count: usize,
    /// How many topic rows the last drawn screen had room for.
    pub visible_topic_count: usize,
    pub filter: Filter,
    pub filter_mode: FilterMode,
    pub search: Option<SearchState>,
    /// First key of a two-key sequence (`R` or `r`).
    pub key_seq: Option<char>,
}

impl AppState {
    pub open spec fn view(&self) -> AppView {
        AppView {
            candidate: self.candidate,
            topics: self.topics@,
            responses: self.responses@,
            current_topic: self.current_topic as int,
            current_question: self.current_question as int,
            scroll_offset: self.scroll_offset as int,
            topic_table_offset: self.topic_table_offset as int,
            should_quit: self.should_quit,
            visible_card_count: self.visible_card_count as int,
            visible_topic_count: self.visible_topic_count as int,
            filter: self.filter,
            filter_mode: self.filter_mode,
            search: search_view(self.search),
            key_seq: self.key_seq,
        }
    }
}

/// Search matches point at existing topics and, except for topic-name
/// searches, at existing questions; the cursor points at a match.
pub open spec fn search_wf(topics: Seq<TopicData>, s: SearchView) -> bool {
    &&& forall|i: int|
        0 <= i < s.matches.len() ==> (#[trigger] s.matches[i]).0 < topics.len() && (s.scope
            != SearchScope::TopicName ==> s.matches[i].1 < topics[s.matches[i].0 as int].questions@.len())
    &&& (s.matches.len() == 0 ==> s.cursor == 0)
    &&& (s.matches.len() > 0 ==> 0 <= s.cursor < s.matches.len())
}

/// The invariant of a session.
pub open spec fn app_wf(v: AppView) -> bool {
    &&& v.topics.len() > 0
    &&& 0 <= v.current_topic < v.topics.len()
    &&& v.search matches Some(s) ==> search_wf(v.topics, s)
}

impl AppState {
    pub open spec fn wf(&self) -> bool {
        app_wf(self@)
    }
}

// ── Which questions are shown ────────────────────────────────────────────────

/// Whether the session shows `q` in the question list: a question search
/// decides when one is open, the filter otherwise.
pub open spec fn shows(v: AppView, q: Question) -> bool {
    match v.search {
        Some(s) => if s.scope != SearchScope::TopicName {
            spec_question_matches(q, spec_lowercase(s.query))
        } else {
            v.filter.spec_matches(q)
        },
        None => v.filter.spec_matches(q),
    }
}

/// The indices, among the first `n` questions, of those that are shown.
pub open spec fn shown_among(v: AppView, qs: Seq<Question>, n: nat) -> Seq<usize>
    decreases n,
{
    if n == 0 {
        seq![]
    } else {
        shown_among(v, qs, (n - 1) as nat) + if shows(v, qs[n - 1]) {
            seq![(n - 1) as usize]
        } else {
            seq![]
        }
    }
}

/// The indices of the current topic's questions that the list shows, in order.
pub open spec fn visible(v: AppView) -> Seq<usize> {
    let qs = v.topics[v.current_topic].questions@;
    shown_among(v, qs, qs.len())
}

pub proof fn lemma_shown_among(v: AppView, qs: Seq<Question>, n: nat)
    requires
        n <= qs.len(),
        n <= usize::MAX,
    ensures
        shown_among(v, qs, n).len() <= n,
        forall|i: int|
            0 <= i < shown_among(v, qs, n).len() ==> (#[trigger] shown_among(v, qs, n)[i]) < n,
        forall|i: int, j: int|
            0 <= i < j < shown_among(v, qs, n).len() ==> shown_among(v, qs, n)[i] < shown_among(
                v,
                qs,
                n,
            )[j],
    decreases n,
{
    if n > 0 {
        let prev = shown_among(v, qs, (n - 1) as nat);
        lemma_shown_among(v, qs, (n - 1) as nat);
        let cur = shown_among(v, qs, n);
        if shows(v, qs[n - 1]) {
            assert(cur =~= prev.push((n - 1) as usize));
        } else {
            assert(cur =~= prev);
        }
        assert forall|i: int, j: int| 0 <= i < j < cur.len() implies cur[i] < cur[j] by {
            if j < prev.len() {
                assert(cur[i] == prev[i] && cur[j] == prev[j]);
            } else {
                assert(cur[i] == prev[i]);
                assert(prev[i] < n - 1);
            }
        }
        assert forall|i: int| 0 <= i < cur.len() implies (#[trigger] cur[i]) < n by {
            if i < prev.len() {
                assert(cur[i] == prev[i]);
            }
        }
    }
}

impl AppState {
    /// Indices, into the current topic's list, of the questions shown in the
    /// list panel, in order. An open question search decides which; without
    /// one, the filter does.
    pub fn topic_questions(&self) -> (r: Vec<usize>)
        requires
            self.wf(),
        ensures
            r@ == visible(self@),
    {
        let qs = &self.topics[self.current_topic].questions;
        let ghost v = self@;
        let mut out: Vec<usize> = Vec::new();
        let ql: Option<String> = match &self.search {
            Some(s) => if s.scope != SearchScope::TopicName {
                Some(crate::text::to_lowercase(s.query.as_str()))
            } else {
                None
            },
            None => None,
        };
        let mut i: usize = 0;
        while i < qs.len()
            invariant
                v == self@,
                app_wf(v),
                *qs == v.topics[v.current_topic].questions,
                i <= qs@.len(),
                out@ == shown_among(v, qs@, i as nat),
                ql matches Some(q) ==> v.search matches Some(s) && s.scope != SearchScope::TopicName
                    && q@ == spec_lowercase(s.query),
                ql is None ==> !(v.search matches Some(s) && s.scope != SearchScope::TopicName),
            decreases qs@.len() - i,
        {
            let shown = match &ql {
                Some(q) => question_matches_query(&qs[i], q.as_str()),
                None => self.filter.matches(&qs[i]),
            };
            if shown {
                out.push(i);
            }
            assert(out@ =~= shown_among(v, qs@, (i + 1) as nat));
            i = i + 1;
        }
        out
    }
}

} // verus!

verus! {

// ── Scrolling ────────────────────────────────────────────────────────────────

/// A window size of at least one row.
pub open spec fn window(count: int) -> int {
    if count < 1 {
        1
    } else {
        count
    }
}

/// The topic table scrolled just enough to show the current topic.
pub open spec fn spec_adjust_topic_scroll(v: AppView) -> AppView {
    let w = window(v.visible_topic_count);
    if v.current_topic < v.topic_table_offset {
        AppView { topic_table_offset: v.current_topic, ..v }
    } else if v.current_topic >= v.topic_table_offset + w {
        AppView { topic_table_offset: v.current_topic + 1 - w, ..v }
    } else {
        v
    }
}

/// The question list scrolled just enough to show position `pos`.
pub open spec fn spec_adjust_scroll_to(v: AppView, pos: int) -> AppView {
    let w = window(v.visible_card_count);
    if pos < v.scroll_offset {
        AppView { scroll_offset: pos, ..v }
    } else if pos >= v.scroll_offset + w {
        AppView { scroll_offset: pos + 1 - w, ..v }
    } else {
        v
    }
}

/// After moving down: scrolled so the selected card is on screen.
pub open spec fn spec_adjust_scroll_down(v: AppView) -> AppView {
    let w = window(v.visible_card_count);
    if v.current_question >= v.scroll_offset + w {
        AppView { scroll_offset: v.current_question + 1 - w, ..v }
    } else {
        v
    }
}

/// After moving up: scrolled so the selected card is on screen.
pub open spec fn spec_adjust_scroll_up(v: AppView) -> AppView {
    if v.current_question < v.scroll_offset {
        AppView { scroll_offset: v.current_question, ..v }
    } else {
        v
    }
}

/// After scrolling to a position, that position is within the window of
/// cards shown.
pub proof fn law_scroll_shows_position(v: AppView, pos: int)
    requires
        pos >= 0,
        v.scroll_offset >= 0,
    ensures
        spec_adjust_scroll_to(v, pos).scroll_offset <= pos < spec_adjust_scroll_to(v, pos).scroll_offset
            + window(v.visible_card_count),
{
}

impl AppState {
    /// Scrolls the topic table so the current topic is in view.
    pub fn adjust_topic_scroll(&mut self)
        ensures
            final(self)@ == spec_adjust_topic_scroll(old(self)@),
    {
        let visible = if self.visible_topic_count < 1 {
            1
        } else {
            self.visible_topic_count
        };
        if self.current_topic < self.topic_table_offset {
            self.topic_table_offset = self.current_topic;
        } else if self.current_topic - self.topic_table_offset >= visible {
            self.topic_table_offset = self.current_topic - (visible - 1);
        }
    }

    fn adjust_scroll_to(&mut self, pos: usize)
        ensures
            final(self)@ == spec_adjust_scroll_to(old(self)@, pos as int),
    {
        let visible = if self.visible_card_count < 1 {
            1
        } else {
            self.visible_card_count
        };
        if pos < self.scroll_offset {
            self.scroll_offset = pos;
        } else if pos - self.scroll_offset >= visible {
            self.scroll_offset = pos - (visible - 1);
        }
    }

    fn adjust_scroll_down(&mut self)
        ensures
            final(self)@ == spec_adjust_scroll_down(old(self)@),
    {
        let visible = if self.visible_card_count < 1 {
            1
        } else {
            self.visible_card_count
        };
        if self.current_question >= self.scroll_offset && self.current_question - self.scroll_offset
            >= visible {
            self.scroll_offset = self.current_question - (visible - 1);
        }
    }

    fn adjust_scroll_up(&mut self)
        ensures
            final(self)@ == spec_adjust_scroll_up(old(self)@),
    {
        if self.current_question < self.scroll_offset {
            self.scroll_offset = self.current_question;
        }
    }
}

// ── Sections ─────────────────────────────────────────────────────────────────

/// The section a question belongs to: written questions before generated
/// ones, each by level.
pub open spec fn section_key(q: Question) -> (bool, u8) {
    (q.ai_generated, q.level)
}

/// The section of the question at position `i` of the shown list.
pub open spec fn key_at(v: AppView, vis: Seq<usize>, i: int) -> (bool, u8) {
    section_key(v.topics[v.current_topic].questions@[vis[i] as int])
}

/// The first position at or after `from` whose section is not `k`, or the
/// list's length.
pub open spec fn next_other(v: AppView, vis: Seq<usize>, k: (bool, u8), from: int) -> int
    decreases vis.len() - from,
{
    if from >= vis.len() {
        vis.len() as int
    } else if key_at(v, vis, from) != k {
        from
    } else {
        next_other(v, vis, k, from + 1)
    }
}

/// The last position before `end` whose section is not `k`, or -1.
pub open spec fn prev_other(v: AppView, vis: Seq<usize>, k: (bool, u8), end: int) -> int
    decreases end,
{
    if end <= 0 {
        -1
    } else if key_at(v, vis, end - 1) != k {
        end - 1
    } else {
        prev_other(v, vis, k, end - 1)
    }
}

/// The selected position is within the shown list (or the list is empty).
pub open spec fn position_ok(v: AppView) -> bool {
    visible(v).len() == 0 || 0 <= v.current_question < visible(v).len()
}

/// Tab: to the start of the next section, wrapping to the top.
pub open spec fn spec_jump_next_section(v: AppView) -> AppView {
    let vis = visible(v);
    if vis.len() == 0 {
        v
    } else {
        let n = next_other(v, vis, key_at(v, vis, v.current_question), v.current_question + 1);
        let idx = if n < vis.len() {
            n
        } else {
            0
        };
        AppView { current_question: idx, scroll_offset: idx, ..v }
    }
}

/// Shift-Tab: to the start of the previous section, wrapping to the last.
pub open spec fn spec_jump_prev_section(v: AppView) -> AppView {
    let vis = visible(v);
    if vis.len() == 0 {
        v
    } else {
        let start = prev_other(v, vis, key_at(v, vis, v.current_question), v.current_question) + 1;
        let target = if start == 0 {
            prev_other(v, vis, key_at(v, vis, vis.len() - 1), vis.len() as int) + 1
        } else {
            prev_other(v, vis, key_at(v, vis, start - 1), start) + 1
        };
        AppView { current_question: target, scroll_offset: target, ..v }
    }
}

proof fn lemma_prev_other(v: AppView, vis: Seq<usize>, k: (bool, u8), end: int)
    requires
        0 <= end <= vis.len(),
    ensures
        -1 <= prev_other(v, vis, k, end) < end,
    decreases end,
{
    if end > 0 && key_at(v, vis, end - 1) == k {
        lemma_prev_other(v, vis, k, end - 1);
    }
}

proof fn lemma_next_other(v: AppView, vis: Seq<usize>, k: (bool, u8), from: int)
    requires
        0 <= from,
    ensures
        from <= next_other(v, vis, k, from) || next_other(v, vis, k, from) == vis.len(),
        next_other(v, vis, k, from) <= vis.len() || from > vis.len(),
    decreases vis.len() - from,
{
    if from < vis.len() && key_at(v, vis, from) == k {
        lemma_next_other(v, vis, k, from + 1);
    }
}

impl AppState {
    fn section_of(&self, vis: &Vec<usize>, i: usize) -> (r: (bool, u8))
        requires
            self.wf(),
            vis@ == visible(self@),
            i < vis@.len(),
        ensures
            r == key_at(self@, vis@, i as int),
    {
        let n = self.topics[self.current_topic].questions.len();
        proof {
            let qs = self@.topics[self@.current_topic].questions@;
            lemma_shown_among(self@, qs, qs.len());
        }
        let q = &self.topics[self.current_topic].questions[vis[i]];
        (q.ai_generated, q.level)
    }

    fn same_section(&self, vis: &Vec<usize>, i: usize, k: (bool, u8)) -> (r: bool)
        requires
            self.wf(),
            vis@ == visible(self@),
            i < vis@.len(),
        ensures
            r == (key_at(self@, vis@, i as int) == k),
    {
        let s = self.section_of(vis, i);
        s.0 == k.0 && s.1 == k.1
    }

    /// The start of the run of `k`-section positions that ends at `end`.
    fn run_start(&self, vis: &Vec<usize>, k: (bool, u8), end: usize) -> (r: usize)
        requires
            self.wf(),
            vis@ == visible(self@),
            end <= vis@.len(),
        ensures
            r == prev_other(self@, vis@, k, end as int) + 1,
    {
        let mut e = end;
        while e > 0
            invariant
                self.wf(),
                vis@ == visible(self@),
                e <= end <= vis@.len(),
                prev_other(self@, vis@, k, end as int) == prev_other(self@, vis@, k, e as int),
            decreases e,
        {
            let s = self.section_of(vis, e - 1);
            if s.0 != k.0 || s.1 != k.1 {
                return e;
            }
            e = e - 1;
        }
        0
    }

    fn jump_next_section(&mut self)
        requires
            old(self).wf(),
            position_ok(old(self)@),
        ensures
            final(self)@ == spec_jump_next_section(old(self)@),
    {
        let vis = self.topic_questions();
        if vis.len() == 0 {
            return;
        }
        let k = self.section_of(&vis, self.current_question);
        let mut i = self.current_question + 1;
        while i < vis.len() && self.same_section(&vis, i, k)
            invariant
                self.wf(),
                vis@ == visible(self@),
                self.current_question < i <= vis@.len(),
                next_other(self@, vis@, k, self.current_question + 1) == next_other(
                    self@,
                    vis@,
                    k,
                    i as int,
                ),
            decreases vis@.len() - i,
        {
            i = i + 1;
        }
        proof {
            lemma_next_other(self@, vis@, k, i as int);
        }
        let idx = if i < vis.len() {
            i
        } else {
            0
        };
        self.current_question = idx;
        self.scroll_offset = idx;
    }

    fn jump_prev_section(&mut self)
        requires
            old(self).wf(),
            position_ok(old(self)@),
        ensures
            final(self)@ == spec_jump_prev_section(old(self)@),
    {
        let vis = self.topic_questions();
        if vis.len() == 0 {
            return;
        }
        let k = self.section_of(&vis, self.current_question);
        let start = self.run_start(&vis, k, self.current_question);
        proof {
            lemma_prev_other(self@, vis@, k, self.current_question as int);
        }
        let target = if start == 0 {
            let lk = self.section_of(&vis, vis.len() - 1);
            self.run_start(&vis, lk, vis.len())
        } else {
            let pk = self.section_of(&vis, start - 1);
            self.run_start(&vis, pk, start)
        };
        self.current_question = target;
        self.scroll_offset = target;
    }
}

} // verus!

verus! {

// ── Searching, filtering and random picks, as specifications ─────────────────

/// The first position at or after `from` holding `x`, or the length.
pub open spec fn position_from(vis: Seq<usize>, x: usize, from: int) -> int
    decreases vis.len() - from,
{
    if from >= vis.len() {
        vis.len() as int
    } else if vis[from] == x {
        from
    } else {
        position_from(vis, x, from + 1)
    }
}

/// Selects position `pos` and scrolls it into view.
pub open spec fn select(v: AppView, pos: int) -> AppView {
    spec_adjust_scroll_to(AppView { current_question: pos, ..v }, pos)
}

/// Moves to the search cursor's match: its topic (for a search across
/// topics) and, when the match is in the shown list of the current topic,
/// its position there.
pub open spec fn spec_jump_to_search_cursor(v: AppView) -> AppView {
    match v.search {
        None => v,
        Some(s) => if s.matches.len() == 0 || s.scope == SearchScope::TopicName {
            v
        } else {
            let (ti, qi) = s.matches[s.cursor];
            let v1 = if s.scope == SearchScope::AllTopics {
                spec_adjust_topic_scroll(AppView { current_topic: ti as int, ..v })
            } else {
                v
            };
            let vis = visible(v1);
            let pos = position_from(vis, qi, 0);
            if ti as int == v1.current_topic && pos < vis.len() {
                select(v1, pos)
            } else {
                v1
            }
        },
    }
}

/// Moves the search cursor one match forward or back, cyclically, and
/// jumps to it.
pub open spec fn spec_search_step(v: AppView, forward: bool) -> AppView {
    match v.search {
        None => v,
        Some(s) => if s.matches.len() == 0 {
            v
        } else {
            let n = s.matches.len() as int;
            let next = if forward {
                (s.cursor + 1) % n
            } else {
                (s.cursor + n - 1) % n
            };
            spec_jump_to_search_cursor(
                AppView { search: Some(SearchView { cursor: next, ..s }), ..v },
            )
        },
    }
}

/// Opens the topic under the cursor of a topic-name search.
pub open spec fn spec_navigate_topic_search_cursor(v: AppView) -> AppView {
    match v.search {
        Some(s) => if s.scope == SearchScope::TopicName && s.matches.len() > 0 {
            spec_adjust_topic_scroll(
                AppView {
                    current_topic: s.matches[s.cursor].0 as int,
                    current_question: 0,
                    scroll_offset: 0,
                    ..v
                },
            )
        } else {
            v
        },
        None => v,
    }
}

/// A topic-name search with a query and exactly one match opens that topic
/// and closes the search.
pub open spec fn spec_auto_open(v: AppView) -> (AppView, bool) {
    match v.search {
        Some(s) => if s.scope == SearchScope::TopicName && s.query.len() > 0 && s.matches.len() == 1 {
            (
                spec_adjust_topic_scroll(
                    AppView {
                        current_topic: s.matches[0].0 as int,
                        current_question: 0,
                        scroll_offset: 0,
                        search: None,
                        ..v
                    },
                ),
                true,
            )
        } else {
            (v, false)
        },
        None => (v, false),
    }
}

/// The search with a new query, its matches recomputed for the current topic.
pub open spec fn requery(v: AppView, s: SearchView, query: Seq<char>) -> AppView {
    let m = spec_search_matches(s.scope, v.topics, v.current_topic, spec_lowercase(query));
    AppView {
        search: Some(
            SearchView {
                query: query,
                matches: m,
                cursor: clamp_cursor(s.cursor, m.len() as int),
                ..s
            },
        ),
        ..v
    }
}

/// After the query changed: open a single topic-name match, or else jump to
/// the cursor's match.
pub open spec fn after_query_change(v: AppView) -> AppView {
    let (v1, opened) = spec_auto_open(v);
    if opened {
        v1
    } else {
        spec_jump_to_search_cursor(v)
    }
}

pub open spec fn is_arrow(key: Key) -> bool {
    key == Key::Up || key == Key::Down || key == Key::Left || key == Key::Right
}

/// A key typed while a search is open (arrow keys excepted).
pub open spec fn spec_search_key(v: AppView, s: SearchView, key: Key) -> AppView {
    match key {
        Key::Esc => AppView { search: None, ..v },
        Key::Enter => if s.scope == SearchScope::TopicName {
            let v1 = if s.matches.len() > 0 {
                spec_adjust_topic_scroll(
                    AppView {
                        current_topic: s.matches[s.cursor].0 as int,
                        current_question: 0,
                        scroll_offset: 0,
                        ..v
                    },
                )
            } else {
                v
            };
            AppView { search: None, ..v1 }
        } else {
            v
        },
        Key::Tab => spec_navigate_topic_search_cursor(spec_search_step(v, true)),
        Key::BackTab => spec_navigate_topic_search_cursor(spec_search_step(v, false)),
        Key::Backspace => after_query_change(
            requery(v, s, if s.query.len() > 0 { s.query.drop_last() } else { s.query }),
        ),
        Key::Char(c) => after_query_change(requery(v, s, s.query.push(c))),
        _ => v,
    }
}

/// No restriction.
pub open spec fn no_filter() -> Filter {
    Filter { level: None, source: None }
}

/// Sets the filter, leaves the filter key sequence and keeps the selection
/// within the new list.
pub open spec fn spec_apply_filter(v: AppView, f: Filter) -> AppView {
    let v1 = AppView { filter: f, filter_mode: FilterMode::Normal, ..v };
    let n = visible(v1).len() as int;
    let max = if n > 0 {
        n - 1
    } else {
        0
    };
    AppView {
        current_question: if v.current_question < max {
            v.current_question
        } else {
            max
        },
        scroll_offset: 0,
        ..v1
    }
}

/// The level a digit key `1`–`4` names.
pub open spec fn level_key(c: char) -> Option<u8> {
    if c == '1' {
        Some(1u8)
    } else if c == '2' {
        Some(2u8)
    } else if c == '3' {
        Some(3u8)
    } else if c == '4' {
        Some(4u8)
    } else {
        None
    }
}

/// A key typed in the middle of a filter key sequence.
pub open spec fn spec_filter_key(v: AppView, key: Key) -> AppView {
    match v.filter_mode {
        FilterMode::PendingLetter => match key {
            Key::Char(c) => if level_key(c) is Some {
                spec_apply_filter(v, Filter { level: level_key(c), source: None })
            } else if c == 'a' {
                AppView { filter_mode: FilterMode::PendingLevel(FilterSource::Ai), ..v }
            } else if c == 'u' {
                AppView { filter_mode: FilterMode::PendingLevel(FilterSource::User), ..v }
            } else {
                AppView { filter_mode: FilterMode::Normal, ..v }
            },
            _ => AppView { filter_mode: FilterMode::Normal, ..v },
        },
        FilterMode::PendingLevel(src) => match key {
            Key::Char(c) => if level_key(c) is Some {
                spec_apply_filter(v, Filter { level: level_key(c), source: Some(src) })
            } else if (c == 'a' && src == FilterSource::Ai) || (c == 'u' && src
                == FilterSource::User) {
                spec_apply_filter(v, Filter { level: None, source: Some(src) })
            } else {
                AppView { filter_mode: FilterMode::Normal, ..v }
            },
            _ => AppView { filter_mode: FilterMode::Normal, ..v },
        },
        FilterMode::Normal => v,
    }
}

/// Whether a question may be picked at random: no score yet, and of the
/// requested source when one is requested.
pub open spec fn eligible(v: AppView, q: Question, ai: Option<bool>) -> bool {
    !v.responses.contains_key(q.id@) && (ai matches Some(a) ==> q.ai_generated == a)
}

/// Eligible questions among the first `n` of topic `ti`.
pub open spec fn topic_pool(v: AppView, ti: int, ai: Option<bool>, n: nat) -> Seq<(usize, usize)>
    decreases n,
{
    if n == 0 {
        seq![]
    } else {
        topic_pool(v, ti, ai, (n - 1) as nat) + if eligible(
            v,
            v.topics[ti].questions@[n - 1],
            ai,
        ) {
            seq![(ti as usize, (n - 1) as usize)]
        } else {
            seq![]
        }
    }
}

/// Eligible questions of the first `n` topics.
pub open spec fn all_pool(v: AppView, ai: Option<bool>, n: nat) -> Seq<(usize, usize)>
    decreases n,
{
    if n == 0 {
        seq![]
    } else {
        all_pool(v, ai, (n - 1) as nat) + topic_pool(
            v,
            n - 1,
            ai,
            v.topics[n - 1].questions@.len(),
        )
    }
}

/// The questions a random jump chooses from: across all topics, or in the
/// current topic only.
pub open spec fn random_pool(v: AppView, any_topic: bool, ai: Option<bool>) -> Seq<(usize, usize)> {
    if any_topic {
        all_pool(v, ai, v.topics.len())
    } else {
        topic_pool(v, v.current_topic, ai, v.topics[v.current_topic].questions@.len())
    }
}

/// The first position in the list whose question has id `id`, or the length.
pub open spec fn id_position_from(v: AppView, vis: Seq<usize>, id: Seq<char>, from: int) -> int
    decreases vis.len() - from,
{
    if from >= vis.len() {
        vis.len() as int
    } else if v.topics[v.current_topic].questions@[vis[from] as int].id@ == id {
        from
    } else {
        id_position_from(v, vis, id, from + 1)
    }
}

/// Jumps to the picked question `(ti, qi)` of a non-empty pool: clears the
/// search and the filter, opens its topic (for a jump across topics, with
/// the list scrolled to the top) and selects the first shown question with
/// its id.
pub open spec fn spec_jump_random(v: AppView, any_topic: bool, pick: (usize, usize)) -> AppView {
    let (ti, qi) = pick;
    let v1 = if any_topic {
        spec_adjust_topic_scroll(
            AppView {
                current_topic: ti as int,
                scroll_offset: 0,
                search: None,
                filter: no_filter(),
                ..v
            },
        )
    } else {
        AppView { search: None, filter: no_filter(), ..v }
    };
    let id = v.topics[ti as int].questions@[qi as int].id@;
    let vis = visible(v1);
    let pos = id_position_from(v1, vis, id, 0);
    if pos < vis.len() {
        select(v1, pos)
    } else {
        v1
    }
}

/// The random jump a two-key sequence asks for: `RR`, `RU`, `RA` across
/// topics, `rr`, `ru`, `ra` in the current topic; the second letter picks
/// any, written, or generated questions.
pub open spec fn random_request(first: Option<char>, key: Key) -> Option<(bool, Option<bool>)> {
    match (first, key) {
        (Some('R'), Key::Char('R')) => Some((true, None)),
        (Some('R'), Key::Char('U')) => Some((true, Some(false))),
        (Some('R'), Key::Char('A')) => Some((true, Some(true))),
        (Some('r'), Key::Char('r')) => Some((false, None)),
        (Some('r'), Key::Char('u')) => Some((false, Some(false))),
        (Some('r'), Key::Char('a')) => Some((false, Some(true))),
        _ => None,
    }
}

} // verus!

verus! {

// ── Normal keys, as a specification ──────────────────────────────────────────

/// The question at the selected position of the shown list.
pub open spec fn selected(v: AppView) -> Question {
    v.topics[v.current_topic].questions@[visible(v)[v.current_question] as int]
}

/// A digit `0`–`4`: records that score for the selected question.
pub open spec fn spec_set_score(v: AppView, score: u8) -> (AppView, Option<EffectView>) {
    if visible(v).len() == 0 {
        (v, None)
    } else {
        let id = selected(v).id@;
        (
            AppView { responses: v.responses.insert(id, score), ..v },
            Some(EffectView::Save { candidate_id: v.candidate.id, question_id: id, score: score }),
        )
    }
}

/// `-`: forgets the selected question's score.
pub open spec fn spec_clear_score(v: AppView) -> (AppView, Option<EffectView>) {
    if visible(v).len() == 0 {
        (v, None)
    } else {
        let id = selected(v).id@;
        (
            AppView { responses: v.responses.remove(id), ..v },
            Some(EffectView::Delete { candidate_id: v.candidate.id, question_id: id }),
        )
    }
}

/// Opens topic `to`, keeping the selection within its list and scrolling
/// its list to the top.
pub open spec fn spec_move_topic(v: AppView, to: int) -> AppView {
    let v1 = AppView { current_topic: to, ..v };
    let n = visible(v1).len() as int;
    let max = if n > 0 {
        n - 1
    } else {
        0
    };
    spec_adjust_topic_scroll(
        AppView {
            current_question: if v.current_question < max {
                v.current_question
            } else {
                max
            },
            scroll_offset: 0,
            ..v1
        },
    )
}

/// Opens a search of the given scope with an empty query.
pub open spec fn spec_start_search(v: AppView, scope: SearchScope) -> AppView {
    let m = spec_search_matches(scope, v.topics, v.current_topic, spec_lowercase(seq![]));
    AppView {
        search: Some(SearchView { scope: scope, query: seq![], matches: m, cursor: 0 }),
        ..v
    }
}

/// A key in normal mode.
pub open spec fn spec_normal_key(v: AppView, key: Key, ctrl: bool) -> (AppView, Option<EffectView>) {
    match key {
        Key::Char(c) => if c == 'q' || (c == 'c' && ctrl) {
            (AppView { should_quit: true, ..v }, None)
        } else if c == 'f' {
            (AppView { filter_mode: FilterMode::PendingLetter, ..v }, None)
        } else if c == 'F' {
            (spec_apply_filter(v, no_filter()), None)
        } else if c == '/' {
            (spec_start_search(v, SearchScope::InTopic), None)
        } else if c == '?' {
            (spec_start_search(v, SearchScope::AllTopics), None)
        } else if c == 't' {
            (spec_start_search(v, SearchScope::TopicName), None)
        } else if c == 'l' {
            (spec_next_topic(v), None)
        } else if c == 'h' {
            (spec_prev_topic(v), None)
        } else if c == 'j' {
            (spec_down(v), None)
        } else if c == 'k' {
            (spec_up(v), None)
        } else if '0' <= c && c <= '4' {
            spec_set_score(v, (c as u32 - '0' as u32) as u8)
        } else if c == '-' {
            spec_clear_score(v)
        } else if c == 'R' || c == 'r' {
            (AppView { key_seq: Some(c), ..v }, None)
        } else {
            (v, None)
        },
        Key::Right => (spec_next_topic(v), None),
        Key::Left => (spec_prev_topic(v), None),
        Key::Down => (spec_down(v), None),
        Key::Up => (spec_up(v), None),
        Key::Tab => (spec_jump_next_section(v), None),
        Key::BackTab => (spec_jump_prev_section(v), None),
        _ => (v, None),
    }
}

/// Right / `l`: the next topic, if any.
pub open spec fn spec_next_topic(v: AppView) -> AppView {
    if v.current_topic + 1 < v.topics.len() {
        spec_move_topic(v, v.current_topic + 1)
    } else {
        v
    }
}

/// Left / `h`: the previous topic, if any.
pub open spec fn spec_prev_topic(v: AppView) -> AppView {
    if v.current_topic > 0 {
        spec_move_topic(v, v.current_topic - 1)
    } else {
        v
    }
}

/// Down / `j`: the next question of the list, if any.
pub open spec fn spec_down(v: AppView) -> AppView {
    let n = visible(v).len();
    if n > 0 && v.current_question + 1 < n {
        spec_adjust_scroll_down(AppView { current_question: v.current_question + 1, ..v })
    } else {
        v
    }
}

/// Up / `k`: the previous question of the list, if any.
pub open spec fn spec_up(v: AppView) -> AppView {
    if v.current_question > 0 {
        spec_adjust_scroll_up(AppView { current_question: v.current_question - 1, ..v })
    } else {
        v
    }
}

/// Whether the key is handled by the open search.
pub open spec fn search_takes(v: AppView, key: Key) -> bool {
    v.search is Some && !is_arrow(key)
}

/// What one key press does: a search takes every key but the arrows; a
/// pending filter sequence takes the next key; a pending `R`/`r` is
/// consumed and may ask for a random jump (to `pick`, when there is
/// anything to pick from); every other key has its normal meaning.
pub open spec fn spec_handle_key(v: AppView, key: Key, ctrl: bool, pick: (usize, usize)) -> (
    AppView,
    Option<EffectView>,
) {
    if search_takes(v, key) {
        (spec_search_key(v, v.search->0, key), None)
    } else if !(v.filter_mode is Normal) {
        (spec_filter_key(v, key), None)
    } else {
        let v1 = AppView { key_seq: None, ..v };
        match random_request(v.key_seq, key) {
            Some((any, ai)) => if random_pool(v, any, ai).len() == 0 {
                (v1, None)
            } else {
                (spec_jump_random(v1, any, pick), None)
            },
            None => spec_normal_key(v1, key, ctrl),
        }
    }
}

/// `pick` is a possible random choice for this key press.
pub open spec fn pick_ok(v: AppView, key: Key, pick: (usize, usize)) -> bool {
    if !search_takes(v, key) && v.filter_mode is Normal {
        match random_request(v.key_seq, key) {
            Some((any, ai)) => random_pool(v, any, ai).len() == 0 || random_pool(v, any, ai).contains(
                pick,
            ),
            None => true,
        }
    } else {
        true
    }
}

/// Whether the key press reads the selected position of the list (Tab,
/// Shift-Tab, a score digit or `-` in normal mode).
pub open spec fn uses_selection(v: AppView, key: Key) -> bool {
    &&& !search_takes(v, key)
    &&& v.filter_mode is Normal
    &&& random_request(v.key_seq, key) is None
    &&& match key {
        Key::Tab | Key::BackTab => true,
        Key::Char(c) => ('0' <= c && c <= '4') || c == '-',
        _ => false,
    }
}

} // verus!

verus! {

// ── Validity of matches and pools ────────────────────────────────────────────

use crate::tui::app::{topic_hits, question_hits, all_hits};

/// Every question list of the topics fits a `usize` index.
pub open spec fn sizes_ok(topics: Seq<TopicData>) -> bool {
    &&& topics.len() <= usize::MAX
    &&& forall|i: int| 0 <= i < topics.len() ==> (#[trigger] topics[i]).questions@.len() <= usize::MAX
}

pub proof fn lemma_sizes_ok(topics: &Vec<TopicData>)
    ensures
        sizes_ok(topics@),
{
    assert(topics@.len() == topics.len());
    assert forall|i: int| 0 <= i < topics@.len() implies (#[trigger] topics@[i]).questions@.len()
        <= usize::MAX by {
        assert(topics@[i].questions@.len() == topics@[i].questions.len());
    }
}

proof fn lemma_topic_hits_valid(topics: Seq<TopicData>, q: Seq<char>, n: nat)
    requires
        n <= topics.len(),
        sizes_ok(topics),
    ensures
        forall|i: int|
            0 <= i < topic_hits(topics, q, n).len() ==> (#[trigger] topic_hits(topics, q, n)[i]).0
                < n,
    decreases n,
{
    if n > 0 {
        lemma_topic_hits_valid(topics, q, (n - 1) as nat);
        let prev = topic_hits(topics, q, (n - 1) as nat);
        let cur = topic_hits(topics, q, n);
        assert forall|i: int| 0 <= i < cur.len() implies (#[trigger] cur[i]).0 < n by {
            if i < prev.len() {
                assert(cur[i] == prev[i]);
            }
        }
    }
}

proof fn lemma_question_hits_valid(topics: Seq<TopicData>, ti: int, q: Seq<char>, n: nat)
    requires
        0 <= ti < topics.len(),
        n <= topics[ti].questions@.len(),
        sizes_ok(topics),
    ensures
        forall|i: int|
            0 <= i < question_hits(topics, ti, q, n).len() ==> (#[trigger] question_hits(
                topics,
                ti,
                q,
                n,
            )[i]).0 == ti && question_hits(topics, ti, q, n)[i].1 < n,
    decreases n,
{
    if n > 0 {
        lemma_question_hits_valid(topics, ti, q, (n - 1) as nat);
        let prev = question_hits(topics, ti, q, (n - 1) as nat);
        let cur = question_hits(topics, ti, q, n);
        assert forall|i: int| 0 <= i < cur.len() implies (#[trigger] cur[i]).0 == ti && cur[i].1
            < n by {
            if i < prev.len() {
                assert(cur[i] == prev[i]);
            }
        }
    }
}

proof fn lemma_all_hits_valid(topics: Seq<TopicData>, q: Seq<char>, n: nat)
    requires
        n <= topics.len(),
        sizes_ok(topics),
    ensures
        forall|i: int|
            0 <= i < all_hits(topics, q, n).len() ==> (#[trigger] all_hits(topics, q, n)[i]).0 < n
                && all_hits(topics, q, n)[i].1 < topics[all_hits(topics, q, n)[i].0 as int].questions@.len(),
    decreases n,
{
    if n > 0 {
        lemma_all_hits_valid(topics, q, (n - 1) as nat);
        let prev = all_hits(topics, q, (n - 1) as nat);
        let last = question_hits(topics, n - 1, q, topics[n - 1].questions@.len());
        lemma_question_hits_valid(topics, n - 1, q, topics[n - 1].questions@.len());
        let cur = all_hits(topics, q, n);
        assert forall|i: int| 0 <= i < cur.len() implies (#[trigger] cur[i]).0 < n && cur[i].1
            < topics[cur[i].0 as int].questions@.len() by {
            if i < prev.len() {
                assert(cur[i] == prev[i]);
            } else {
                assert(cur[i] == last[i - prev.len()]);
            }
        }
    }
}

/// The matches of any search point at existing topics and questions.
pub proof fn lemma_search_matches_valid(
    scope: SearchScope,
    topics: Seq<TopicData>,
    ct: int,
    q: Seq<char>,
)
    requires
        sizes_ok(topics),
    ensures
        forall|i: int|
            0 <= i < spec_search_matches(scope, topics, ct, q).len() ==> (#[trigger] spec_search_matches(
                scope,
                topics,
                ct,
                q,
            )[i]).0 < topics.len() && (scope != SearchScope::TopicName ==> spec_search_matches(
                scope,
                topics,
                ct,
                q,
            )[i].1 < topics[spec_search_matches(scope, topics, ct, q)[i].0 as int].questions@.len()),
{
    match scope {
        SearchScope::TopicName => lemma_topic_hits_valid(topics, q, topics.len()),
        SearchScope::InTopic => if 0 <= ct < topics.len() {
            lemma_question_hits_valid(topics, ct, q, topics[ct].questions@.len());
        },
        SearchScope::AllTopics => lemma_all_hits_valid(topics, q, topics.len()),
    }
}

proof fn lemma_topic_pool_valid(v: AppView, ti: int, ai: Option<bool>, n: nat)
    requires
        0 <= ti < v.topics.len(),
        n <= v.topics[ti].questions@.len(),
        sizes_ok(v.topics),
    ensures
        forall|i: int|
            0 <= i < topic_pool(v, ti, ai, n).len() ==> (#[trigger] topic_pool(v, ti, ai, n)[i]).0
                == ti && topic_pool(v, ti, ai, n)[i].1 < n,
    decreases n,
{
    if n > 0 {
        lemma_topic_pool_valid(v, ti, ai, (n - 1) as nat);
        let prev = topic_pool(v, ti, ai, (n - 1) as nat);
        let cur = topic_pool(v, ti, ai, n);
        assert forall|i: int| 0 <= i < cur.len() implies (#[trigger] cur[i]).0 == ti && cur[i].1
            < n by {
            if i < prev.len() {
                assert(cur[i] == prev[i]);
            }
        }
    }
}

proof fn lemma_all_pool_valid(v: AppView, ai: Option<bool>, n: nat)
    requires
        n <= v.topics.len(),
        sizes_ok(v.topics),
    ensures
        forall|i: int|
            0 <= i < all_pool(v, ai, n).len() ==> (#[trigger] all_pool(v, ai, n)[i]).0 < n
                && all_pool(v, ai, n)[i].1 < v.topics[all_pool(v, ai, n)[i].0 as int].questions@.len(),
    decreases n,
{
    if n > 0 {
        lemma_all_pool_valid(v, ai, (n - 1) as nat);
        let prev = all_pool(v, ai, (n - 1) as nat);
        let last = topic_pool(v, n - 1, ai, v.topics[n - 1].questions@.len());
        lemma_topic_pool_valid(v, n - 1, ai, v.topics[n - 1].questions@.len());
        let cur = all_pool(v, ai, n);
        assert forall|i: int| 0 <= i < cur.len() implies (#[trigger] cur[i]).0 < n && cur[i].1
            < v.topics[cur[i].0 as int].questions@.len() by {
            if i < prev.len() {
                assert(cur[i] == prev[i]);
            } else {
                assert(cur[i] == last[i - prev.len()]);
            }
        }
    }
}

/// A random pool holds existing questions, and only questions of the current
/// topic when the jump stays in that topic.
pub proof fn lemma_random_pool_valid(v: AppView, any_topic: bool, ai: Option<bool>)
    requires
        app_wf(v),
        sizes_ok(v.topics),
    ensures
        forall|i: int|
            0 <= i < random_pool(v, any_topic, ai).len() ==> (#[trigger] random_pool(
                v,
                any_topic,
                ai,
            )[i]).0 < v.topics.len() && random_pool(v, any_topic, ai)[i].1 < v.topics[random_pool(
                v,
                any_topic,
                ai,
            )[i].0 as int].questions@.len() && (!any_topic ==> random_pool(v, any_topic, ai)[i].0
                == v.current_topic),
{
    if any_topic {
        lemma_all_pool_valid(v, ai, v.topics.len());
    } else {
        lemma_topic_pool_valid(v, v.current_topic, ai, v.topics[v.current_topic].questions@.len());
    }
}

} // verus!

verus! {

fn position_of(vis: &Vec<usize>, x: usize) -> (r: usize)
    ensures
        r as int == position_from(vis@, x, 0),
        r <= vis@.len(),
{
    let mut i: usize = 0;
    while i < vis.len() && vis[i] != x
        invariant
            i <= vis@.len(),
            position_from(vis@, x, 0) == position_from(vis@, x, i as int),
        decreases vis@.len() - i,
    {
        i = i + 1;
    }
    i
}

impl AppState {
    fn jump_to_search_cursor(&mut self)
        requires
            old(self).wf(),
        ensures
            final(self).wf(),
            final(self)@ == spec_jump_to_search_cursor(old(self)@),
    {
        let (ti, qi, scope) = match &self.search {
            None => {
                return;
            },
            Some(s) => {
                if s.matches.len() == 0 {
                    return;
                }
                let m = s.matches[s.cursor];
                (m.0, m.1, s.scope)
            },
        };
        if scope == SearchScope::TopicName {
            return;
        }
        if scope == SearchScope::AllTopics {
            self.current_topic = ti;
            self.adjust_topic_scroll();
        }
        if ti == self.current_topic {
            let vis = self.topic_questions();
            let pos = position_of(&vis, qi);
            if pos < vis.len() {
                self.current_question = pos;
                self.adjust_scroll_to(pos);
            }
        }
    }

    fn search_step(&mut self, forward: bool)
        requires
            old(self).wf(),
        ensures
            final(self).wf(),
            final(self)@ == spec_search_step(old(self)@, forward),
    {
        let next = match &self.search {
            None => {
                return;
            },
            Some(s) => {
                let n = s.matches.len();
                if n == 0 {
                    return;
                }
                if forward {
                    if s.cursor + 1 < n {
                        s.cursor + 1
                    } else {
                        0
                    }
                } else {
                    if s.cursor > 0 {
                        s.cursor - 1
                    } else {
                        n - 1
                    }
                }
            },
        };
        let ghost before = self@;
        let mut s = self.search.take().unwrap();
        s.cursor = next;
        self.search = Some(s);
        proof {
            let sv = before.search->0;
            let n = sv.matches.len() as int;
            let c = sv.cursor;
            if forward {
                if c + 1 < n {
                    vstd::arithmetic::div_mod::lemma_small_mod((c + 1) as nat, n as nat);
                } else {
                    vstd::arithmetic::div_mod::lemma_mod_self_0(n);
                }
                assert(next == (c + 1) % n);
            } else {
                if c > 0 {
                    assert((c + n - 1) % n == c - 1) by (nonlinear_arith)
                        requires
                            0 < c < n,
                    {
                        vstd::arithmetic::div_mod::lemma_mod_add_multiples_vanish(c - 1, n);
                        vstd::arithmetic::div_mod::lemma_small_mod((c - 1) as nat, n as nat);
                    }
                } else {
                    vstd::arithmetic::div_mod::lemma_small_mod((n - 1) as nat, n as nat);
                }
                assert(next == (c + n - 1) % n);
            }
            assert(self@ == AppView {
                search: Some(SearchView { cursor: next as int, ..sv }),
                ..before
            });
        }
        self.jump_to_search_cursor();
    }

    fn navigate_topic_search_cursor(&mut self)
        requires
            old(self).wf(),
        ensures
            final(self).wf(),
            final(self)@ == spec_navigate_topic_search_cursor(old(self)@),
    {
        let target = match &self.search {
            Some(s) => {
                if s.scope == SearchScope::TopicName && s.matches.len() > 0 {
                    Some(s.matches[s.cursor].0)
                } else {
                    None
                }
            },
            None => None,
        };
        if let Some(ti) = target {
            self.current_topic = ti;
            self.current_question = 0;
            self.scroll_offset = 0;
            self.adjust_topic_scroll();
        }
    }

    fn auto_open_if_single_topic_match(&mut self) -> (r: bool)
        requires
            old(self).wf(),
        ensures
            final(self).wf(),
            (final(self)@, r) == spec_auto_open(old(self)@),
    {
        let target = match &self.search {
            Some(s) => {
                if s.scope == SearchScope::TopicName && !s.query.as_str().is_empty() && s.matches.len() == 1 {
                    Some(s.matches[0].0)
                } else {
                    None
                }
            },
            None => None,
        };
        match target {
            Some(ti) => {
                self.current_topic = ti;
                self.current_question = 0;
                self.scroll_offset = 0;
                self.search = None;
                self.adjust_topic_scroll();
                true
            },
            None => false,
        }
    }

    fn apply_filter(&mut self, filter: Filter)
        requires
            old(self).wf(),
        ensures
            final(self).wf(),
            final(self)@ == spec_apply_filter(old(self)@, filter),
    {
        self.filter = filter;
        self.filter_mode = FilterMode::Normal;
        let n = self.topic_questions().len();
        let max = if n > 0 {
            n - 1
        } else {
            0
        };
        if self.current_question > max {
            self.current_question = max;
        }
        self.scroll_offset = 0;
    }
}

} // verus!

verus! {

/// `rand::seq::SliceRandom::choose` with the thread-local generator: an
/// element of the slice at an index drawn below its length, or `None` for an
/// empty slice. Which element comes back is left open.
#[verifier::external_body]
fn choose_from<T: Copy>(pool: &[T]) -> (r: Option<T>)
    ensures
        r is None <==> pool@.len() == 0,
        r matches Some(x) ==> pool@.contains(x),
{
    pool.choose(&mut rand::thread_rng()).copied()
}

impl AppState {
    fn push_topic_pool(&self, out: &mut Vec<(usize, usize)>, ti: usize, ai: Option<bool>)
        requires
            self.wf(),
            ti < self@.topics.len(),
        ensures
            final(out)@ == old(out)@ + topic_pool(
                self@,
                ti as int,
                ai,
                self@.topics[ti as int].questions@.len(),
            ),
    {
        let qs = &self.topics[ti].questions;
        let ghost start = out@;
        let mut qi: usize = 0;
        while qi < qs.len()
            invariant
                self.wf(),
                ti < self@.topics.len(),
                *qs == self@.topics[ti as int].questions,
                qi <= qs@.len(),
                out@ == start + topic_pool(self@, ti as int, ai, qi as nat),
            decreases qs@.len() - qi,
        {
            let q = &qs[qi];
            let ok = !self.responses.contains_key(q.id.as_str()) && match ai {
                Some(a) => q.ai_generated == a,
                None => true,
            };
            if ok {
                out.push((ti, qi));
            }
            assert(out@ =~= start + topic_pool(self@, ti as int, ai, (qi + 1) as nat));
            qi = qi + 1;
        }
    }

    fn random_pool_of(&self, any_topic: bool, ai: Option<bool>) -> (r: Vec<(usize, usize)>)
        requires
            self.wf(),
        ensures
            r@ == random_pool(self@, any_topic, ai),
    {
        let mut pool: Vec<(usize, usize)> = Vec::new();
        if any_topic {
            let mut ti: usize = 0;
            while ti < self.topics.len()
                invariant
                    self.wf(),
                    ti <= self@.topics.len(),
                    pool@ == all_pool(self@, ai, ti as nat),
                decreases self@.topics.len() - ti,
            {
                self.push_topic_pool(&mut pool, ti, ai);
                ti = ti + 1;
            }
        } else {
            self.push_topic_pool(&mut pool, self.current_topic, ai);
            assert(pool@ =~= random_pool(self@, any_topic, ai));
        }
        pool
    }

    fn id_position(&self, vis: &Vec<usize>, id: &str) -> (r: usize)
        requires
            self.wf(),
            vis@ == visible(self@),
        ensures
            r as int == id_position_from(self@, vis@, id@, 0),
            r <= vis@.len(),
    {
        proof {
            let qs = self@.topics[self@.current_topic].questions@;
            assert(qs.len() == self.topics[self.current_topic as int].questions.len());
            lemma_shown_among(self@, qs, qs.len());
        }
        let qs = &self.topics[self.current_topic].questions;
        let mut i: usize = 0;
        while i < vis.len() && !crate::text::str_eq(qs[vis[i]].id.as_str(), id)
            invariant
                self.wf(),
                vis@ == visible(self@),
                *qs == self@.topics[self@.current_topic].questions,
                forall|k: int| 0 <= k < vis@.len() ==> (#[trigger] vis@[k]) < qs@.len(),
                i <= vis@.len(),
                id_position_from(self@, vis@, id@, 0) == id_position_from(self@, vis@, id@, i as int),
            decreases vis@.len() - i,
        {
            i = i + 1;
        }
        i
    }

    /// Jumps to a random question without a score: across all topics or in
    /// the current one, optionally only written (`Some(false)`) or only
    /// generated (`Some(true)`) questions. Gives the pick, or `None` when
    /// there was nothing to pick from (and nothing changed).
    fn jump_random(&mut self, any_topic: bool, ai_filter: Option<bool>) -> (r: Option<(usize, usize)>)
        requires
            old(self).wf(),
        ensures
            final(self).wf(),
            r is None <==> random_pool(old(self)@, any_topic, ai_filter).len() == 0,
            r is None ==> final(self)@ == old(self)@,
            r matches Some(p) ==> random_pool(old(self)@, any_topic, ai_filter).contains(p)
                && final(self)@ == spec_jump_random(old(self)@, any_topic, p),
    {
        let pool = self.random_pool_of(any_topic, ai_filter);
        let pick = choose_from(pool.as_slice());
        match pick {
            None => None,
            Some(p) => {
                let ghost before = self@;
                proof {
                    lemma_sizes_ok(&self.topics);
                    lemma_random_pool_valid(before, any_topic, ai_filter);
                    let k = choose|k: int| 0 <= k < pool@.len() && pool@[k] == p;
                    assert(pool@[k] == p);
                }
                let (ti, qi) = p;
                let q_id = self.topics[ti].questions[qi].id.clone();
                if any_topic {
                    self.current_topic = ti;
                    self.scroll_offset = 0;
                    self.search = None;
                    self.filter = Filter::none();
                    self.adjust_topic_scroll();
                } else {
                    self.search = None;
                    self.filter = Filter::none();
                }
                let vis = self.topic_questions();
                let pos = self.id_position(&vis, q_id.as_str());
                if pos < vis.len() {
                    self.current_question = pos;
                    self.adjust_scroll_to(pos);
                }
                Some(p)
            },
        }
    }

    fn set_score(&mut self, score: u8) -> (r: Option<Effect>)
        requires
            old(self).wf(),
            position_ok(old(self)@),
        ensures
            final(self).wf(),
            (final(self)@, effect_view(r)) == spec_set_score(old(self)@, score),
    {
        let vis = self.topic_questions();
        if vis.len() == 0 {
            return None;
        }
        proof {
            let qs = self@.topics[self@.current_topic].questions@;
            assert(qs.len() == self.topics[self.current_topic as int].questions.len());
            lemma_shown_among(self@, qs, qs.len());
        }
        let qid = self.topics[self.current_topic].questions[vis[self.current_question]].id.clone();
        let cid = self.candidate.id;
        self.responses.insert(qid.clone(), score);
        Some(Effect::Save(Response { candidate_id: cid, question_id: qid, score }))
    }

    fn clear_score(&mut self) -> (r: Option<Effect>)
        requires
            old(self).wf(),
            position_ok(old(self)@),
        ensures
            final(self).wf(),
            (final(self)@, effect_view(r)) == spec_clear_score(old(self)@),
    {
        let vis = self.topic_questions();
        if vis.len() == 0 {
            return None;
        }
        proof {
            let qs = self@.topics[self@.current_topic].questions@;
            assert(qs.len() == self.topics[self.current_topic as int].questions.len());
            lemma_shown_among(self@, qs, qs.len());
        }
        let qid = self.topics[self.current_topic].questions[vis[self.current_question]].id.clone();
        let cid = self.candidate.id;
        self.responses.remove(qid.as_str());
        Some(Effect::Delete { candidate_id: cid, question_id: qid })
    }
}

} // verus!

verus! {

proof fn lemma_shown_among_same(v: AppView, w: AppView, qs: Seq<Question>, n: nat)
    requires
        v.search == w.search,
        v.filter == w.filter,
    ensures
        shown_among(v, qs, n) == shown_among(w, qs, n),
    decreases n,
{
    if n > 0 {
        lemma_shown_among_same(v, w, qs, (n - 1) as nat);
    }
}

/// The shown list does not depend on anything but the topics, the current
/// topic, the search and the filter.
proof fn lemma_visible_same(v: AppView, w: AppView)
    requires
        v.topics == w.topics,
        v.current_topic == w.current_topic,
        v.search == w.search,
        v.filter == w.filter,
    ensures
        visible(v) == visible(w),
{
    let qs = v.topics[v.current_topic].questions@;
    lemma_shown_among_same(v, w, qs, qs.len());
}

proof fn lemma_topic_pool_same(v: AppView, w: AppView, ti: int, ai: Option<bool>, n: nat)
    requires
        v.topics == w.topics,
        v.responses == w.responses,
    ensures
        topic_pool(v, ti, ai, n) == topic_pool(w, ti, ai, n),
    decreases n,
{
    if n > 0 {
        lemma_topic_pool_same(v, w, ti, ai, (n - 1) as nat);
    }
}

proof fn lemma_all_pool_same(v: AppView, w: AppView, ai: Option<bool>, n: nat)
    requires
        v.topics == w.topics,
        v.responses == w.responses,
    ensures
        all_pool(v, ai, n) == all_pool(w, ai, n),
    decreases n,
{
    if n > 0 {
        lemma_all_pool_same(v, w, ai, (n - 1) as nat);
        lemma_topic_pool_same(v, w, n - 1, ai, v.topics[n - 1].questions@.len());
    }
}

/// The random pools do not depend on anything but the topics, the recorded
/// scores and the current topic.
proof fn lemma_random_pool_same(v: AppView, w: AppView, any_topic: bool, ai: Option<bool>)
    requires
        v.topics == w.topics,
        v.responses == w.responses,
        v.current_topic == w.current_topic,
    ensures
        random_pool(v, any_topic, ai) == random_pool(w, any_topic, ai),
{
    lemma_all_pool_same(v, w, ai, v.topics.len());
    lemma_topic_pool_same(v, w, v.current_topic, ai, v.topics[v.current_topic].questions@.len());
}

/// The random jump a pending first key and a second key ask for.
fn random_request_of(first: char, key: Key) -> (r: Option<(bool, Option<bool>)>)
    ensures
        r == random_request(Some(first), key),
{
    match key {
        Key::Char(c) => {
            if first == 'R' && c == 'R' {
                Some((true, None))
            } else if first == 'R' && c == 'U' {
                Some((true, Some(false)))
            } else if first == 'R' && c == 'A' {
                Some((true, Some(true)))
            } else if first == 'r' && c == 'r' {
                Some((false, None))
            } else if first == 'r' && c == 'u' {
                Some((false, Some(false)))
            } else if first == 'r' && c == 'a' {
                Some((false, Some(true)))
            } else {
                None
            }
        },
        _ => None,
    }
}

fn level_of_key(c: char) -> (r: Option<u8>)
    ensures
        r == level_key(c),
{
    if c == '1' {
        Some(1)
    } else if c == '2' {
        Some(2)
    } else if c == '3' {
        Some(3)
    } else if c == '4' {
        Some(4)
    } else {
        None
    }
}

impl AppState {
    fn start_search(&mut self, scope: SearchScope)
        requires
            old(self).wf(),
        ensures
            final(self).wf(),
            final(self)@ == spec_start_search(old(self)@, scope),
    {
        let mut s = SearchState::new(scope);
        s.recompute(self.topics.as_slice(), self.current_topic);
        proof {
            lemma_sizes_ok(&self.topics);
            lemma_search_matches_valid(scope, self@.topics, self@.current_topic, spec_lowercase(s.query@));
            assert(s.query@ =~= Seq::<char>::empty());
        }
        self.search = Some(s);
    }

    fn requery(&mut self, s: SearchState)
        requires
            old(self).wf(),
            s.matches@.len() == 0 ==> s.cursor == 0,
        ensures
            final(self).wf(),
            final(self)@ == requery(
                old(self)@,
                SearchView {
                    scope: s.scope,
                    query: s.query@,
                    matches: s.matches@,
                    cursor: s.cursor as int,
                },
                s.query@,
            ),
    {
        let mut s = s;
        s.recompute(self.topics.as_slice(), self.current_topic);
        proof {
            lemma_sizes_ok(&self.topics);
            lemma_search_matches_valid(s.scope, self@.topics, self@.current_topic, spec_lowercase(s.query@));
        }
        self.search = Some(s);
    }

    fn handle_search_key(&mut self, key: Key)
        requires
            old(self).wf(),
            search_takes(old(self)@, key),
        ensures
            final(self).wf(),
            final(self)@ == spec_search_key(old(self)@, old(self)@.search->0, key),
    {
        match key {
            Key::Esc => {
                self.search = None;
            },
            Key::Enter => {
                let target = match &self.search {
                    Some(s) => if s.scope == SearchScope::TopicName {
                        if s.matches.len() > 0 {
                            Some(Some(s.matches[s.cursor].0))
                        } else {
                            Some(None)
                        }
                    } else {
                        None
                    },
                    None => None,
                };
                match target {
                    Some(t) => {
                        if let Some(ti) = t {
                            self.current_topic = ti;
                            self.current_question = 0;
                            self.scroll_offset = 0;
                            self.adjust_topic_scroll();
                        }
                        self.search = None;
                    },
                    None => {},
                }
            },
            Key::Tab => {
                self.search_step(true);
                self.navigate_topic_search_cursor();
            },
            Key::BackTab => {
                self.search_step(false);
                self.navigate_topic_search_cursor();
            },
            Key::Backspace => {
                let mut s = self.search.take().unwrap();
                crate::text::pop_char(&mut s.query);
                self.requery(s);
                if !self.auto_open_if_single_topic_match() {
                    self.jump_to_search_cursor();
                }
            },
            Key::Char(c) => {
                let mut s = self.search.take().unwrap();
                crate::text::push_char(&mut s.query, c);
                self.requery(s);
                if !self.auto_open_if_single_topic_match() {
                    self.jump_to_search_cursor();
                }
            },
            _ => {},
        }
    }

    fn handle_filter_key(&mut self, key: Key)
        requires
            old(self).wf(),
            !(old(self)@.filter_mode is Normal),
        ensures
            final(self).wf(),
            final(self)@ == spec_filter_key(old(self)@, key),
    {
        match self.filter_mode {
            FilterMode::PendingLetter => {
                match key {
                    Key::Char(c) => {
                        if let Some(l) = level_of_key(c) {
                            self.apply_filter(Filter { level: Some(l), source: None });
                        } else if c == 'a' {
                            self.filter_mode = FilterMode::PendingLevel(FilterSource::Ai);
                        } else if c == 'u' {
                            self.filter_mode = FilterMode::PendingLevel(FilterSource::User);
                        } else {
                            self.filter_mode = FilterMode::Normal;
                        }
                    },
                    _ => {
                        self.filter_mode = FilterMode::Normal;
                    },
                }
            },
            FilterMode::PendingLevel(src) => {
                match key {
                    Key::Char(c) => {
                        if let Some(l) = level_of_key(c) {
                            self.apply_filter(Filter { level: Some(l), source: Some(src) });
                        } else if (c == 'a' && src == FilterSource::Ai) || (c == 'u' && src
                            == FilterSource::User) {
                            self.apply_filter(Filter { level: None, source: Some(src) });
                        } else {
                            self.filter_mode = FilterMode::Normal;
                        }
                    },
                    _ => {
                        self.filter_mode = FilterMode::Normal;
                    },
                }
            },
            FilterMode::Normal => {},
        }
    }

    fn move_topic(&mut self, to: usize)
        requires
            old(self).wf(),
            to < old(self)@.topics.len(),
        ensures
            final(self).wf(),
            final(self)@ == spec_move_topic(old(self)@, to as int),
    {
        self.current_topic = to;
        let n = self.topic_questions().len();
        let max = if n > 0 {
            n - 1
        } else {
            0
        };
        if self.current_question > max {
            self.current_question = max;
        }
        self.scroll_offset = 0;
        self.adjust_topic_scroll();
    }

    fn handle_normal_key(&mut self, key: Key, ctrl: bool) -> (r: Option<Effect>)
        requires
            old(self).wf(),
            (match key {
                Key::Tab | Key::BackTab => true,
                Key::Char(c) => ('0' <= c && c <= '4') || c == '-',
                _ => false,
            }) ==> position_ok(old(self)@),
        ensures
            final(self).wf(),
            (final(self)@, effect_view(r)) == spec_normal_key(old(self)@, key, ctrl),
    {
        match key {
            Key::Char(c) => {
                if c == 'q' || (c == 'c' && ctrl) {
                    self.should_quit = true;
                } else if c == 'f' {
                    self.filter_mode = FilterMode::PendingLetter;
                } else if c == 'F' {
                    self.apply_filter(Filter::none());
                } else if c == '/' {
                    self.start_search(SearchScope::InTopic);
                } else if c == '?' {
                    self.start_search(SearchScope::AllTopics);
                } else if c == 't' {
                    self.start_search(SearchScope::TopicName);
                } else if c == 'l' {
                    self.next_topic();
                } else if c == 'h' {
                    self.prev_topic();
                } else if c == 'j' {
                    self.down();
                } else if c == 'k' {
                    self.up();
                } else if '0' <= c && c <= '4' {
                    let score = ((c as u32) - ('0' as u32)) as u8;
                    return self.set_score(score);
                } else if c == '-' {
                    return self.clear_score();
                } else if c == 'R' || c == 'r' {
                    self.key_seq = Some(c);
                }
            },
            Key::Right => self.next_topic(),
            Key::Left => self.prev_topic(),
            Key::Down => self.down(),
            Key::Up => self.up(),
            Key::Tab => self.jump_next_section(),
            Key::BackTab => self.jump_prev_section(),
            _ => {},
        }
        None
    }

    fn next_topic(&mut self)
        requires
            old(self).wf(),
        ensures
            final(self).wf(),
            final(self)@ == spec_next_topic(old(self)@),
    {
        if self.current_topic < self.topics.len() - 1 {
            self.move_topic(self.current_topic + 1);
        }
    }

    fn prev_topic(&mut self)
        requires
            old(self).wf(),
        ensures
            final(self).wf(),
            final(self)@ == spec_prev_topic(old(self)@),
    {
        if self.current_topic > 0 {
            self.move_topic(self.current_topic - 1);
        }
    }

    fn down(&mut self)
        requires
            old(self).wf(),
        ensures
            final(self).wf(),
            final(self)@ == spec_down(old(self)@),
    {
        let n = self.topic_questions().len();
        if n > 0 && self.current_question < n - 1 {
            self.current_question = self.current_question + 1;
            self.adjust_scroll_down();
        }
    }

    fn up(&mut self)
        requires
            old(self).wf(),
        ensures
            final(self).wf(),
            final(self)@ == spec_up(old(self)@),
    {
        if self.current_question > 0 {
            self.current_question = self.current_question - 1;
            self.adjust_scroll_up();
        }
    }

    /// Handles one key press (with whether Ctrl was held). Returns the change
    /// of stored scores that the caller is to carry out, if any. A random
    /// jump lands on some question of its pool (see `pick_ok`).
    pub fn handle_key(&mut self, key: Key, ctrl: bool) -> (r: Option<Effect>)
        requires
            old(self).wf(),
            uses_selection(old(self)@, key) ==> position_ok(old(self)@),
        ensures
            final(self).wf(),
            exists|pick: (usize, usize)|
                pick_ok(old(self)@, key, pick) && (final(self)@, effect_view(r)) == spec_handle_key(
                    old(self)@,
                    key,
                    ctrl,
                    pick,
                ),
    {
        let ghost before = self@;
        let arrow = key == Key::Up || key == Key::Down || key == Key::Left || key == Key::Right;
        if self.search.is_some() && !arrow {
            self.handle_search_key(key);
            assert(pick_ok(before, key, (0usize, 0usize)));
            assert((self@, effect_view(None)) == spec_handle_key(before, key, ctrl, (0usize, 0usize)));
            return None;
        }
        match self.filter_mode {
            FilterMode::Normal => {},
            _ => {
                self.handle_filter_key(key);
                assert(pick_ok(before, key, (0usize, 0usize)));
                assert((self@, effect_view(None)) == spec_handle_key(
                    before,
                    key,
                    ctrl,
                    (0usize, 0usize),
                ));
                return None;
            },
        }
        let first = self.key_seq.take();
        if let Some(f) = first {
            if let Some((any, ai)) = random_request_of(f, key) {
                let ghost v1 = self@;
                proof {
                    lemma_random_pool_same(before, v1, any, ai);
                }
                let p = self.jump_random(any, ai);
                match p {
                    Some(w) => {
                        assert(pick_ok(before, key, w));
                        assert((self@, effect_view(None)) == spec_handle_key(before, key, ctrl, w));
                    },
                    None => {
                        assert(pick_ok(before, key, (0usize, 0usize)));
                        assert((self@, effect_view(None)) == spec_handle_key(
                            before,
                            key,
                            ctrl,
                            (0usize, 0usize),
                        ));
                    },
                }
                return None;
            }
        }
        proof {
            lemma_visible_same(before, self@);
        }
        let r = self.handle_normal_key(key, ctrl);
        assert(pick_ok(before, key, (0usize, 0usize)));
        assert((self@, effect_view(r)) == spec_handle_key(before, key, ctrl, (0usize, 0usize)));
        r
    }
}

} // verus!

verus! {

use crate::models::{spec_score, spec_max_score_asked, spec_answered, sum_topics};
use crate::tui::order::{reorder_questions, sections_sorted};

impl AppState {
    /// Opens a session on the given topics: each topic's questions are put
    /// in offering order (see `reorder_questions`); the first topic is open,
    /// with no filter and no search.
    pub fn new(candidate: Candidate, topics: Vec<TopicData>, responses: Responses) -> (r: AppState)
        requires
            topics@.len() > 0,
        ensures
            r.wf(),
            r.candidate == candidate,
            r@.responses == responses@,
            r.topics@.len() == topics@.len(),
            forall|i: int|
                0 <= i < topics@.len() ==> (#[trigger] r.topics@[i]).name == topics@[i].name
                    && r.topics@[i].questions@.to_multiset() == topics@[i].questions@.to_multiset()
                    && sections_sorted(r.topics@[i].questions@),
            r.current_topic == 0 && r.current_question == 0 && r.scroll_offset == 0
                && r.topic_table_offset == 0,
            !r.should_quit,
            r.visible_card_count == 5 && r.visible_topic_count == 5,
            r.filter.level is None && r.filter.source is None,
            r.filter_mode is Normal,
            r.search is None,
            r.key_seq is None,
    {
        let mut topics = topics;
        let ghost orig = topics@;
        let mut i: usize = 0;
        while i < topics.len()
            invariant
                i <= topics@.len(),
                topics@.len() == orig.len(),
                forall|k: int|
                    0 <= k < orig.len() ==> (#[trigger] topics@[k]).name == orig[k].name
                        && topics@[k].questions@.to_multiset() == orig[k].questions@.to_multiset()
                        && (k < i ==> sections_sorted(topics@[k].questions@)),
            decreases orig.len() - i,
        {
            let mut t = topics.remove(i);
            reorder_questions(&mut t.questions);
            topics.insert(i, t);
            i = i + 1;
        }
        AppState {
            candidate,
            topics,
            responses,
            current_topic: 0,
            current_question: 0,
            scroll_offset: 0,
            topic_table_offset: 0,
            should_quit: false,
            visible_card_count: 5,
            visible_topic_count: 5,
            filter: Filter::none(),
            filter_mode: FilterMode::Normal,
            search: None,
            key_seq: None,
        }
    }

    /// Whether `handle_key` would read a selected position past the end of
    /// the shown list, which it must not be asked to do.
    pub fn selection_overrun(&self, key: Key) -> (r: bool)
        requires
            self.wf(),
        ensures
            r == (uses_selection(self@, key) && !position_ok(self@)),
    {
        let arrow = key == Key::Up || key == Key::Down || key == Key::Left || key == Key::Right;
        if self.search.is_some() && !arrow {
            return false;
        }
        match self.filter_mode {
            FilterMode::Normal => {},
            _ => {
                return false;
            },
        }
        if let Some(f) = self.key_seq {
            if random_request_of(f, key).is_some() {
                return false;
            }
        }
        let reads = match key {
            Key::Tab | Key::BackTab => true,
            Key::Char(c) => ('0' <= c && c <= '4') || c == '-',
            _ => false,
        };
        if !reads {
            return false;
        }
        let n = self.topic_questions().len();
        n > 0 && self.current_question >= n
    }

    /// Whether question `raw_q_idx` of topic `topic_idx` is a match of the
    /// open question search.
    pub fn is_search_match(&self, topic_idx: usize, raw_q_idx: usize) -> (r: bool)
        ensures
            r == (self@.search matches Some(s) && s.scope != SearchScope::TopicName
                && s.matches.contains((topic_idx, raw_q_idx))),
    {
        match &self.search {
            Some(s) => {
                if s.scope == SearchScope::TopicName {
                    return false;
                }
                let mut i: usize = 0;
                while i < s.matches.len()
                    invariant
                        self.search == Some(*s),
                        s.scope != SearchScope::TopicName,
                        i <= s.matches@.len(),
                        forall|k: int| 0 <= k < i ==> s.matches@[k] != (topic_idx, raw_q_idx),
                    decreases s.matches@.len() - i,
                {
                    let m = s.matches[i];
                    if m.0 == topic_idx && m.1 == raw_q_idx {
                        assert(s.matches@[i as int] == (topic_idx, raw_q_idx));
                        return true;
                    }
                    i = i + 1;
                }
                false
            },
            None => false,
        }
    }

    /// Whether question `raw_q_idx` of topic `topic_idx` is the match under
    /// the search cursor.
    pub fn is_current_search_match(&self, topic_idx: usize, raw_q_idx: usize) -> (r: bool)
        requires
            self.wf(),
        ensures
            r == (self@.search matches Some(s) && s.matches.len() > 0 && s.matches[s.cursor]
                == (topic_idx, raw_q_idx)),
    {
        match &self.search {
            Some(s) => {
                if s.matches.len() == 0 {
                    return false;
                }
                let m = s.matches[s.cursor];
                m.0 == topic_idx && m.1 == raw_q_idx
            },
            None => false,
        }
    }

    /// Whether topic `topic_idx` holds a match of a topic or all-topics search.
    pub fn topic_search_is_match(&self, topic_idx: usize) -> (r: bool)
        ensures
            r == (self@.search matches Some(s) && s.scope != SearchScope::InTopic && exists|k: int|
                0 <= k < s.matches.len() && (#[trigger] s.matches[k]).0 == topic_idx),
    {
        match &self.search {
            Some(s) => {
                if s.scope == SearchScope::InTopic {
                    return false;
                }
                let mut i: usize = 0;
                while i < s.matches.len()
                    invariant
                        self.search == Some(*s),
                        s.scope != SearchScope::InTopic,
                        i <= s.matches@.len(),
                        forall|k: int| 0 <= k < i ==> (#[trigger] s.matches@[k]).0 != topic_idx,
                    decreases s.matches@.len() - i,
                {
                    if s.matches[i].0 == topic_idx {
                        assert(s.matches@[i as int].0 == topic_idx);
                        let ghost sv = self@.search->0;
                        assert(sv.matches == s.matches@);
                        assert(0 <= i < sv.matches.len() && sv.matches[i as int].0 == topic_idx);
                        return true;
                    }
                    i = i + 1;
                }
                false
            },
            None => false,
        }
    }

    /// Whether the cursor of a topic or all-topics search is in topic
    /// `topic_idx`.
    pub fn topic_search_is_cursor(&self, topic_idx: usize) -> (r: bool)
        requires
            self.wf(),
        ensures
            r == (self@.search matches Some(s) && s.scope != SearchScope::InTopic && s.matches.len()
                > 0 && s.matches[s.cursor].0 == topic_idx),
    {
        match &self.search {
            Some(s) => {
                if s.matches.len() > 0 && s.scope != SearchScope::InTopic {
                    s.matches[s.cursor].0 == topic_idx
                } else {
                    false
                }
            },
            None => false,
        }
    }

    /// The score over all topics.
    pub fn total_score(&self) -> (r: u32)
        requires
            crate::models::spec_total_score(self@.topics, self@.responses) <= u32::MAX,
        ensures
            r == crate::models::spec_total_score(self@.topics, self@.responses),
    {
        crate::models::total_score(self.topics.as_slice(), &self.responses)
    }

    /// The points of all asked questions.
    pub fn total_max(&self) -> (r: u32)
        requires
            crate::models::spec_total_max_asked(self@.topics, self@.responses) <= u32::MAX,
        ensures
            r == crate::models::spec_total_max_asked(self@.topics, self@.responses),
    {
        crate::models::total_max_asked(self.topics.as_slice(), &self.responses)
    }

    /// The number of answered questions over all topics.
    pub fn total_answered(&self) -> (r: usize)
        requires
            crate::models::spec_total_answered(self@.topics, self@.responses) <= usize::MAX,
        ensures
            r == crate::models::spec_total_answered(self@.topics, self@.responses),
    {
        crate::models::total_answered(self.topics.as_slice(), &self.responses)
    }

    /// The number of questions over all topics.
    pub fn total_questions(&self) -> (r: usize)
        requires
            crate::models::spec_total_questions(self@.topics) <= usize::MAX,
        ensures
            r == crate::models::spec_total_questions(self@.topics),
    {
        crate::models::total_questions(self.topics.as_slice())
    }
}

} // verus!

verus! {

/// In normal mode, a score digit records that score for the selected
/// question and asks for it to be stored; reading the score back gives it.
pub proof fn law_score_key_records(v: AppView, c: char, pick: (usize, usize))
    requires
        app_wf(v),
        v.search is None,
        v.filter_mode is Normal,
        v.key_seq is None,
        '0' <= c <= '4',
        visible(v).len() > 0,
    ensures
        ({
            let (w, e) = spec_handle_key(v, Key::Char(c), false, pick);
            let id = selected(v).id@;
            let score = (c as u32 - '0' as u32) as u8;
            &&& w.responses == v.responses.insert(id, score)
            &&& w.responses.get(id) == Some(score)
            &&& e == Some(EffectView::Save { candidate_id: v.candidate.id, question_id: id, score })
        }),
{
    let v1 = AppView { key_seq: None, ..v };
    lemma_visible_same(v, v1);
    assert(!is_arrow(Key::Char(c)));
}

proof fn lemma_all_shown(v: AppView, qs: Seq<Question>, n: nat)
    requires
        n <= qs.len(),
        forall|i: int| 0 <= i < n ==> shows(v, #[trigger] qs[i]),
    ensures
        shown_among(v, qs, n).len() == n,
        forall|i: int| 0 <= i < n ==> #[trigger] shown_among(v, qs, n)[i] == i as usize,
    decreases n,
{
    if n > 0 {
        lemma_all_shown(v, qs, (n - 1) as nat);
        assert(shows(v, qs[n - 1]));
    }
}

/// Without a filter and without a search the list shows every question of
/// the current topic, in order; so the header's count is the topic's size.
pub proof fn law_unfiltered_shows_all(v: AppView)
    requires
        app_wf(v),
        v.search is None,
        !(v.filter.level is Some || v.filter.source is Some),
    ensures
        visible(v).len() == v.topics[v.current_topic].questions@.len(),
        forall|i: int| 0 <= i < visible(v).len() ==> #[trigger] visible(v)[i] == i as usize,
{
    let qs = v.topics[v.current_topic].questions@;
    lemma_all_shown(v, qs, qs.len());
}

/// `w` has the topics, candidate and scores of `v`.
pub open spec fn same_core(v: AppView, w: AppView) -> bool {
    &&& w.topics == v.topics
    &&& w.candidate == v.candidate
    &&& w.responses == v.responses
}

proof fn lemma_core_search_key(v: AppView, s: SearchView, key: Key)
    ensures
        same_core(v, spec_search_key(v, s, key)),
{
}

proof fn lemma_core_filter_key(v: AppView, key: Key)
    ensures
        same_core(v, spec_filter_key(v, key)),
{
}

proof fn lemma_core_jump_random(v: AppView, any_topic: bool, pick: (usize, usize))
    ensures
        same_core(v, spec_jump_random(v, any_topic, pick)),
{
}

proof fn lemma_core_normal_key(v: AppView, key: Key, ctrl: bool)
    ensures
        ({
            let (w, e) = spec_normal_key(v, key, ctrl);
            &&& w.topics == v.topics
            &&& w.candidate == v.candidate
            &&& e is None ==> w.responses == v.responses
            &&& e matches Some(EffectView::Save { candidate_id, question_id, score }) ==> {
                &&& candidate_id == v.candidate.id
                &&& score <= 4
                &&& w.responses == v.responses.insert(question_id, score)
            }
            &&& e matches Some(EffectView::Delete { candidate_id, question_id }) ==> {
                &&& candidate_id == v.candidate.id
                &&& w.responses == v.responses.remove(question_id)
            }
        }),
{
}

/// The change a key asks the caller to store is exactly the change it makes
/// to the session's scores: no effect leaves the scores as they were, a
/// save records a score from 0 to 4, a delete forgets one; topics and the
/// candidate never change.
pub proof fn law_effects_mirror_scores(v: AppView, key: Key, ctrl: bool, pick: (usize, usize))
    ensures
        ({
            let (w, e) = spec_handle_key(v, key, ctrl, pick);
            &&& w.topics == v.topics
            &&& w.candidate == v.candidate
            &&& e is None ==> w.responses == v.responses
            &&& e matches Some(EffectView::Save { candidate_id, question_id, score }) ==> {
                &&& candidate_id == v.candidate.id
                &&& score <= 4
                &&& w.responses == v.responses.insert(question_id, score)
            }
            &&& e matches Some(EffectView::Delete { candidate_id, question_id }) ==> {
                &&& candidate_id == v.candidate.id
                &&& w.responses == v.responses.remove(question_id)
            }
        }),
{
    let v1 = AppView { key_seq: None, ..v };
    if search_takes(v, key) {
        lemma_core_search_key(v, v.search->0, key);
    } else if !(v.filter_mode is Normal) {
        lemma_core_filter_key(v, key);
    } else {
        match random_request(v.key_seq, key) {
            Some((any, ai)) => {
                lemma_core_jump_random(v1, any, pick);
            },
            None => {
                lemma_core_normal_key(v1, key, ctrl);
            },
        }
    }
}

/// Setting a score on the selected question and then clearing it gives back
/// the scores from before when that question had none, and asks for the
/// stored score to be deleted.
pub proof fn law_clear_after_set(v: AppView, score: u8)
    requires
        visible(v).len() > 0,
        !v.responses.contains_key(selected(v).id@),
    ensures
        ({
            let (w, _) = spec_set_score(v, score);
            let (x, e) = spec_clear_score(w);
            &&& x.responses == v.responses
            &&& e == Some(EffectView::Delete { candidate_id: v.candidate.id, question_id: selected(v).id@ })
        }),
{
    let id = selected(v).id@;
    let w = spec_set_score(v, score).0;
    lemma_visible_same(v, w);
    assert(v.responses.insert(id, score).remove(id) =~= v.responses);
}

/// Scoring the selected question and then pressing `-` undoes the score:
/// the recorded scores are those from before, without that question.
pub proof fn law_clear_undoes_score(v: AppView, c: char, pick: (usize, usize))
    requires
        app_wf(v),
        v.search is None,
        v.filter_mode is Normal,
        v.key_seq is None,
        '0' <= c <= '4',
        visible(v).len() > 0,
    ensures
        ({
            let (w, _) = spec_handle_key(v, Key::Char(c), false, pick);
            let (x, e) = spec_handle_key(w, Key::Char('-'), false, pick);
            let id = selected(v).id@;
            &&& x.responses == v.responses.remove(id)
            &&& e == Some(EffectView::Delete { candidate_id: v.candidate.id, question_id: id })
        }),
{
    let v1 = AppView { key_seq: None, ..v };
    lemma_visible_same(v, v1);
    assert(!is_arrow(Key::Char(c)));
    let id = selected(v).id@;
    let score = (c as u32 - '0' as u32) as u8;
    let w = spec_handle_key(v, Key::Char(c), false, pick).0;
    assert(w == AppView { responses: v.responses.insert(id, score), ..v1 });
    lemma_visible_same(v, w);
    let w1 = AppView { key_seq: None, ..w };
    lemma_visible_same(w, w1);
    assert(!is_arrow(Key::Char('-')));
    assert(selected(w1) == selected(v));
    assert(v.responses.insert(id, score).remove(id) =~= v.responses.remove(id));
}

/// In normal mode, `-` forgets the selected question's score and asks for
/// the stored one to be deleted.
pub proof fn law_clear_key_forgets(v: AppView, pick: (usize, usize))
    requires
        app_wf(v),
        v.search is None,
        v.filter_mode is Normal,
        v.key_seq is None,
        visible(v).len() > 0,
    ensures
        ({
            let (w, e) = spec_handle_key(v, Key::Char('-'), false, pick);
            let id = selected(v).id@;
            &&& !w.responses.contains_key(id)
            &&& e == Some(EffectView::Delete { candidate_id: v.candidate.id, question_id: id })
        }),
{
    let v1 = AppView { key_seq: None, ..v };
    lemma_visible_same(v, v1);
}

/// Esc closes an open search and changes nothing else.
pub proof fn law_esc_closes_search(v: AppView, pick: (usize, usize))
    requires
        v.search is Some,
    ensures
        spec_handle_key(v, Key::Esc, false, pick) == (AppView { search: None, ..v }, None::<EffectView>),
{
}

/// In normal mode, `F` clears the filter.
pub proof fn law_clear_filter(v: AppView, pick: (usize, usize))
    requires
        v.search is None,
        v.filter_mode is Normal,
    ensures
        spec_handle_key(v, Key::Char('F'), false, pick).0.filter == no_filter(),
        spec_handle_key(v, Key::Char('F'), false, pick).0.filter_mode is Normal,
{
}

/// A random jump only lands on a question without a recorded score.
pub proof fn law_random_pick_unscored(v: AppView, any_topic: bool, ai: Option<bool>, pick: (usize, usize))
    requires
        app_wf(v),
        sizes_ok(v.topics),
        random_pool(v, any_topic, ai).contains(pick),
    ensures
        !v.responses.contains_key(v.topics[pick.0 as int].questions@[pick.1 as int].id@),
        ai matches Some(a) ==> v.topics[pick.0 as int].questions@[pick.1 as int].ai_generated == a,
{
    lemma_pool_eligible(v, any_topic, ai);
}

proof fn lemma_topic_pool_eligible(v: AppView, ti: int, ai: Option<bool>, n: nat)
    requires
        0 <= ti < v.topics.len(),
        n <= v.topics[ti].questions@.len(),
        sizes_ok(v.topics),
    ensures
        forall|i: int|
            0 <= i < topic_pool(v, ti, ai, n).len() ==> eligible(
                v,
                v.topics[ti].questions@[(#[trigger] topic_pool(v, ti, ai, n)[i]).1 as int],
                ai,
            ),
    decreases n,
{
    if n > 0 {
        lemma_topic_pool_eligible(v, ti, ai, (n - 1) as nat);
        let prev = topic_pool(v, ti, ai, (n - 1) as nat);
        let cur = topic_pool(v, ti, ai, n);
        assert forall|i: int| 0 <= i < cur.len() implies eligible(
            v,
            v.topics[ti].questions@[(#[trigger] cur[i]).1 as int],
            ai,
        ) by {
            if i < prev.len() {
                assert(cur[i] == prev[i]);
            }
        }
    }
}

proof fn lemma_all_pool_eligible(v: AppView, ai: Option<bool>, n: nat)
    requires
        n <= v.topics.len(),
        sizes_ok(v.topics),
    ensures
        forall|i: int|
            0 <= i < all_pool(v, ai, n).len() ==> eligible(
                v,
                v.topics[(#[trigger] all_pool(v, ai, n)[i]).0 as int].questions@[all_pool(v, ai, n)[i].1 as int],
                ai,
            ),
    decreases n,
{
    if n > 0 {
        lemma_all_pool_eligible(v, ai, (n - 1) as nat);
        let prev = all_pool(v, ai, (n - 1) as nat);
        let last = topic_pool(v, n - 1, ai, v.topics[n - 1].questions@.len());
        lemma_topic_pool_eligible(v, n - 1, ai, v.topics[n - 1].questions@.len());
        lemma_topic_pool_valid(v, n - 1, ai, v.topics[n - 1].questions@.len());
        let cur = all_pool(v, ai, n);
        assert forall|i: int| 0 <= i < cur.len() implies eligible(
            v,
            v.topics[(#[trigger] cur[i]).0 as int].questions@[cur[i].1 as int],
            ai,
        ) by {
            if i < prev.len() {
                assert(cur[i] == prev[i]);
            } else {
                assert(cur[i] == last[i - prev.len()]);
            }
        }
    }
}

proof fn lemma_pool_eligible(v: AppView, any_topic: bool, ai: Option<bool>)
    requires
        app_wf(v),
        sizes_ok(v.topics),
    ensures
        forall|i: int|
            0 <= i < random_pool(v, any_topic, ai).len() ==> eligible(
                v,
                v.topics[(#[trigger] random_pool(v, any_topic, ai)[i]).0 as int].questions@[random_pool(
                    v,
                    any_topic,
                    ai,
                )[i].1 as int],
                ai,
            ),
{
    lemma_random_pool_valid(v, any_topic, ai);
    if any_topic {
        lemma_all_pool_eligible(v, ai, v.topics.len());
    } else {
        lemma_topic_pool_eligible(v, v.current_topic, ai, v.topics[v.current_topic].questions@.len());
    }
}


// ── Moving through topics and questions ──────────────────────────────────────

/// In normal mode with no search open, Up and `k` do the same thing: the
/// selection moves to the previous question when there is one and stays
/// otherwise, in the same topic, with the scores and the filter unchanged.
/// Down and `j` do the same thing: the selection moves to the next shown
/// question when there is one.
pub proof fn law_up_down_keys(v: AppView, pick: (usize, usize))
    requires
        v.current_question >= 0,
        v.search is None,
        v.filter_mode is Normal,
    ensures
        ({
            let up = spec_handle_key(v, Key::Up, false, pick);
            let down = spec_handle_key(v, Key::Down, false, pick);
            &&& up == spec_handle_key(v, Key::Char('k'), false, pick)
            &&& down == spec_handle_key(v, Key::Char('j'), false, pick)
            &&& up.1 is None && down.1 is None
            &&& up.0.current_question == if v.current_question > 0 {
                v.current_question - 1
            } else {
                v.current_question
            }
            &&& down.0.current_question == if v.current_question + 1 < visible(v).len() {
                v.current_question + 1
            } else {
                v.current_question
            }
            &&& up.0.current_topic == v.current_topic && down.0.current_topic == v.current_topic
            &&& up.0.responses == v.responses && down.0.responses == v.responses
            &&& up.0.filter == v.filter && down.0.filter == v.filter
        }),
{
    let v1 = AppView { key_seq: None, ..v };
    assert(visible(v1) == visible(v)) by {
        lemma_visible_same(v, v1);
    }
}

/// In normal mode with no search open, Right and `l` do the same thing:
/// the next topic opens when there is one. Left and `h` open the previous
/// topic when there is one. The scores stay as they are.
pub proof fn law_left_right_keys(v: AppView, pick: (usize, usize))
    requires
        v.search is None,
        v.filter_mode is Normal,
    ensures
        ({
            let right = spec_handle_key(v, Key::Right, false, pick);
            let left = spec_handle_key(v, Key::Left, false, pick);
            &&& right == spec_handle_key(v, Key::Char('l'), false, pick)
            &&& left == spec_handle_key(v, Key::Char('h'), false, pick)
            &&& right.0.current_topic == if v.current_topic + 1 < v.topics.len() {
                v.current_topic + 1
            } else {
                v.current_topic
            }
            &&& left.0.current_topic == if v.current_topic > 0 {
                v.current_topic - 1
            } else {
                v.current_topic
            }
            &&& right.0.responses == v.responses && left.0.responses == v.responses
        }),
{
}

// ── Filter key sequences ─────────────────────────────────────────────────────

proof fn lemma_shown_match(v: AppView, qs: Seq<Question>, n: nat)
    requires
        n <= qs.len(),
        n <= usize::MAX,
    ensures
        forall|i: int|
            0 <= i < shown_among(v, qs, n).len() ==> shows(v, qs[#[trigger] shown_among(v, qs, n)[i] as int])
                && shown_among(v, qs, n)[i] < n,
    decreases n,
{
    if n > 0 {
        lemma_shown_match(v, qs, (n - 1) as nat);
        let prev = shown_among(v, qs, (n - 1) as nat);
        let cur = shown_among(v, qs, n);
        assert forall|i: int| 0 <= i < cur.len() implies shows(v, qs[#[trigger] cur[i] as int]) && cur[i] < n by {
            if i < prev.len() {
                assert(cur[i] == prev[i]);
            } else {
                assert(cur[i] == (n - 1) as usize);
            }
        }
    }
}

/// The source a filter key names: `a` generated questions, `u` written ones.
pub open spec fn source_key(c: char) -> FilterSource {
    if c == 'a' {
        FilterSource::Ai
    } else {
        FilterSource::User
    }
}

/// In normal mode with no search open, the keys `f`, then `a` or `u`, then a
/// digit `1`–`4` set the filter to that source and level, end the key
/// sequence, and from then on every question shown is of that level and
/// was generated (`a`) or written (`u`). The selection stays where it was
/// when the new list is long enough, and moves to its last question
/// otherwise.
pub proof fn law_filter_source_level(v: AppView, src: char, digit: char, pick: (usize, usize))
    requires
        app_wf(v),
        v.current_question >= 0,
        sizes_ok(v.topics),
        v.search is None,
        v.filter_mode is Normal,
        src == 'a' || src == 'u',
        '1' <= digit <= '4',
    ensures
        ({
            let w1 = spec_handle_key(v, Key::Char('f'), false, pick).0;
            let w2 = spec_handle_key(w1, Key::Char(src), false, pick).0;
            let w3 = spec_handle_key(w2, Key::Char(digit), false, pick).0;
            let level = (digit as u32 - '0' as u32) as u8;
            let qs = w3.topics[w3.current_topic].questions@;
            &&& w3.filter.level == Some(level)
            &&& w3.filter.source == Some(source_key(src))
            &&& w3.filter_mode is Normal
            &&& w3.responses == v.responses
            &&& w3.scroll_offset == 0
            &&& w3.current_question == if visible(w3).len() == 0 {
                0
            } else if v.current_question < visible(w3).len() {
                v.current_question
            } else {
                visible(w3).len() - 1
            }
            &&& forall|i: int|
                0 <= i < visible(w3).len() ==> qs[#[trigger] visible(w3)[i] as int].level == level
                    && (qs[visible(w3)[i] as int].ai_generated <==> src == 'a')
        }),
{
    let w1 = spec_handle_key(v, Key::Char('f'), false, pick).0;
    let w2 = spec_handle_key(w1, Key::Char(src), false, pick).0;
    let w3 = spec_handle_key(w2, Key::Char(digit), false, pick).0;
    assert(w2.filter_mode == FilterMode::PendingLevel(source_key(src)));
    assert(level_key(digit) == Some((digit as u32 - '0' as u32) as u8));
    let v1 = AppView { filter: w3.filter, filter_mode: FilterMode::Normal, ..w2 };
    lemma_visible_same(v1, w3);
    let qs = w3.topics[w3.current_topic].questions@;
    lemma_shown_match(w3, qs, qs.len());
}

/// In normal mode with no search open, the keys `f` and then a digit
/// `1`–`4` show only the questions of that level, of either source.
pub proof fn law_filter_level(v: AppView, digit: char, pick: (usize, usize))
    requires
        app_wf(v),
        sizes_ok(v.topics),
        v.search is None,
        v.filter_mode is Normal,
        '1' <= digit <= '4',
    ensures
        ({
            let w1 = spec_handle_key(v, Key::Char('f'), false, pick).0;
            let w2 = spec_handle_key(w1, Key::Char(digit), false, pick).0;
            let level = (digit as u32 - '0' as u32) as u8;
            let qs = w2.topics[w2.current_topic].questions@;
            &&& w2.filter.level == Some(level)
            &&& w2.filter.source is None
            &&& w2.filter_mode is Normal
            &&& forall|i: int| 0 <= i < visible(w2).len() ==> qs[#[trigger] visible(w2)[i] as int].level == level
        }),
{
    let w1 = spec_handle_key(v, Key::Char('f'), false, pick).0;
    let w2 = spec_handle_key(w1, Key::Char(digit), false, pick).0;
    assert(level_key(digit) == Some((digit as u32 - '0' as u32) as u8));
    let qs = w2.topics[w2.current_topic].questions@;
    lemma_shown_match(w2, qs, qs.len());
}

/// In normal mode with no search open, the keys `f`, then `a` twice (or
/// `u` twice) show every level of generated (written) questions only.
pub proof fn law_filter_source_only(v: AppView, src: char, pick: (usize, usize))
    requires
        app_wf(v),
        sizes_ok(v.topics),
        v.search is None,
        v.filter_mode is Normal,
        src == 'a' || src == 'u',
    ensures
        ({
            let w1 = spec_handle_key(v, Key::Char('f'), false, pick).0;
            let w2 = spec_handle_key(w1, Key::Char(src), false, pick).0;
            let w3 = spec_handle_key(w2, Key::Char(src), false, pick).0;
            let qs = w3.topics[w3.current_topic].questions@;
            &&& w3.filter.level is None
            &&& w3.filter.source == Some(source_key(src))
            &&& w3.filter_mode is Normal
            &&& forall|i: int|
                0 <= i < visible(w3).len() ==> (qs[#[trigger] visible(w3)[i] as int].ai_generated <==> src == 'a')
        }),
{
    let w1 = spec_handle_key(v, Key::Char('f'), false, pick).0;
    let w2 = spec_handle_key(w1, Key::Char(src), false, pick).0;
    let w3 = spec_handle_key(w2, Key::Char(src), false, pick).0;
    assert(w2.filter_mode == FilterMode::PendingLevel(source_key(src)));
    let qs = w3.topics[w3.current_topic].questions@;
    lemma_shown_match(w3, qs, qs.len());
}

/// A key that does not continue a filter key sequence ends it and leaves
/// the filter as it was.
pub proof fn law_filter_sequence_cancelled(v: AppView, key: Key, pick: (usize, usize))
    requires
        v.search is None,
        v.filter_mode is Normal,
        !(key matches Key::Char(c) && ('1' <= c <= '4' || c == 'a' || c == 'u')),
    ensures
        ({
            let w1 = spec_handle_key(v, Key::Char('f'), false, pick).0;
            let w2 = spec_handle_key(w1, key, false, pick).0;
            &&& w1.filter_mode is PendingLetter
            &&& w2.filter == v.filter
            &&& w2.filter_mode is Normal
            &&& w2.current_question == v.current_question
            &&& w2.responses == v.responses
        }),
{
    match key {
        Key::Char(c) => {
            assert(level_key(c) is None);
        },
        _ => {},
    }
}

/// In normal mode with no search open, `q` and Ctrl-C end the session
/// without touching the scores, and `/`, `?` and `t` open an empty search
/// in the current topic, over all topics, and over topic names.
pub proof fn law_quit_and_search_keys(v: AppView, pick: (usize, usize))
    requires
        v.search is None,
        v.filter_mode is Normal,
    ensures
        spec_handle_key(v, Key::Char('q'), false, pick).0.should_quit,
        spec_handle_key(v, Key::Char('q'), false, pick).0.responses == v.responses,
        spec_handle_key(v, Key::Char('q'), false, pick).1 is None,
        spec_handle_key(v, Key::Char('c'), true, pick).0.should_quit,
        !spec_handle_key(v, Key::Char('c'), false, pick).0.should_quit || v.should_quit,
        spec_handle_key(v, Key::Char('/'), false, pick).0.search matches Some(s) && s.scope
            == SearchScope::InTopic && s.query.len() == 0,
        spec_handle_key(v, Key::Char('?'), false, pick).0.search matches Some(s) && s.scope
            == SearchScope::AllTopics && s.query.len() == 0,
        spec_handle_key(v, Key::Char('t'), false, pick).0.search matches Some(s) && s.scope
            == SearchScope::TopicName && s.query.len() == 0,
{
}

// ── Sections ─────────────────────────────────────────────────────────────────

/// Position `s` of the shown list starts a run of questions of one source
/// and level.
pub open spec fn section_start(v: AppView, s: int) -> bool {
    s == 0 || !same_section(v, s - 1, s)
}

/// Positions `i` and `j` of the shown list hold questions of the same
/// source and level.
pub open spec fn same_section(v: AppView, i: int, j: int) -> bool {
    let qs = v.topics[v.current_topic].questions@;
    let vis = visible(v);
    &&& qs[vis[i] as int].ai_generated == qs[vis[j] as int].ai_generated
    &&& qs[vis[i] as int].level == qs[vis[j] as int].level
}

proof fn lemma_next_other_run(v: AppView, k: (bool, u8), from: int)
    requires
        0 <= from <= visible(v).len(),
    ensures
        from <= next_other(v, visible(v), k, from) <= visible(v).len(),
        next_other(v, visible(v), k, from) < visible(v).len() ==> key_at(
            v,
            visible(v),
            next_other(v, visible(v), k, from),
        ) != k,
        forall|i: int| from <= i < next_other(v, visible(v), k, from) ==> key_at(v, visible(v), i) == k,
    decreases visible(v).len() - from,
{
    if from < visible(v).len() && key_at(v, visible(v), from) == k {
        lemma_next_other_run(v, k, from + 1);
    }
}

proof fn lemma_prev_other_run(v: AppView, k: (bool, u8), end: int)
    requires
        0 <= end <= visible(v).len(),
    ensures
        -1 <= prev_other(v, visible(v), k, end) < end,
        prev_other(v, visible(v), k, end) >= 0 ==> key_at(v, visible(v), prev_other(v, visible(v), k, end))
            != k,
        forall|i: int| prev_other(v, visible(v), k, end) < i < end ==> key_at(v, visible(v), i) == k,
    decreases end,
{
    if end > 0 && key_at(v, visible(v), end - 1) == k {
        lemma_prev_other_run(v, k, end - 1);
    }
}

/// In normal mode with no search open, Tab selects the first question after
/// the current one that is of another source or level, with everything in
/// between of the current one's; when there is none it wraps to the top.
pub proof fn law_tab_next_section(v: AppView, pick: (usize, usize))
    requires
        v.search is None,
        v.filter_mode is Normal,
        0 <= v.current_question < visible(v).len(),
    ensures
        ({
            let w = spec_handle_key(v, Key::Tab, false, pick).0;
            let c = v.current_question;
            let n = w.current_question;
            &&& w.scroll_offset == n
            &&& w.topics == v.topics && w.current_topic == v.current_topic && w.filter == v.filter
            &&& 0 <= n < visible(v).len()
            &&& (n > c && !same_section(v, n, c) && forall|i: int| c <= i < n ==> same_section(v, i, c))
                || (n == 0 && forall|i: int| c <= i < visible(v).len() ==> same_section(v, i, c))
        }),
{
    let v1 = AppView { key_seq: None, ..v };
    lemma_visible_same(v, v1);
    let vis = visible(v);
    let c = v.current_question;
    let k = key_at(v1, vis, c);
    lemma_next_other_run(v1, k, c + 1);
    let n = next_other(v1, vis, k, c + 1);
    assert forall|i: int| c <= i < n implies same_section(v, i, c) by {
        if i > c {
            assert(key_at(v1, vis, i) == k);
        }
    }
    if n < vis.len() {
        assert(key_at(v1, vis, n) != k);
        assert(!same_section(v, n, c));
    }
}

/// In normal mode with no search open, Shift-Tab selects the first question
/// of the section before the current one: the current question's run of
/// questions of one source and level starts at some position `s`, and the
/// new selection starts the run that ends just before `s`. When the current
/// run is the first, it wraps to the start of the last run.
pub proof fn law_backtab_prev_section(v: AppView, pick: (usize, usize))
    requires
        v.search is None,
        v.filter_mode is Normal,
        0 <= v.current_question < visible(v).len(),
    ensures
        ({
            let w = spec_handle_key(v, Key::BackTab, false, pick).0;
            let c = v.current_question;
            let t = w.current_question;
            let len = visible(v).len() as int;
            &&& w.scroll_offset == t
            &&& 0 <= t < len
            &&& section_start(v, t)
            &&& exists|s: int|
                0 <= s <= c && #[trigger] section_start(v, s) && (forall|i: int|
                    s <= i <= c ==> #[trigger] same_section(v, i, c)) && if s > 0 {
                    t < s && forall|i: int| t <= i < s ==> #[trigger] same_section(v, i, t)
                } else {
                    forall|i: int| t <= i < len ==> #[trigger] same_section(v, i, t)
                }
        }),
{
    let v1 = AppView { key_seq: None, ..v };
    lemma_visible_same(v, v1);
    let vis = visible(v);
    let c = v.current_question;
    let len = vis.len() as int;
    let k = key_at(v1, vis, c);
    lemma_prev_other_run(v1, k, c);
    let s = prev_other(v1, vis, k, c) + 1;
    assert forall|i: int| s <= i <= c implies #[trigger] same_section(v, i, c) by {
        if i < c {
            assert(key_at(v1, vis, i) == k);
        }
    }
    assert(key_at(v1, vis, s) == k);
    if s > 0 {
        assert(key_at(v1, vis, s - 1) != k);
    }
    assert(section_start(v, s));
    if s > 0 {
        let k2 = key_at(v1, vis, s - 1);
        lemma_prev_other_run(v1, k2, s);
        let t = prev_other(v1, vis, k2, s) + 1;
        assert forall|i: int| t <= i < s implies #[trigger] same_section(v, i, t) by {
            assert(key_at(v1, vis, i) == k2);
            assert(key_at(v1, vis, t) == k2);
        }
        assert(section_start(v, t)) by {
            if t > 0 {
                assert(key_at(v1, vis, t) == k2);
            }
        }
    } else {
        let k2 = key_at(v1, vis, len - 1);
        lemma_prev_other_run(v1, k2, len);
        let t = prev_other(v1, vis, k2, len) + 1;
        assert forall|i: int| t <= i < len implies #[trigger] same_section(v, i, t) by {
            assert(key_at(v1, vis, i) == k2);
            assert(key_at(v1, vis, t) == k2);
        }
        assert(section_start(v, t)) by {
            if t > 0 {
                assert(key_at(v1, vis, t) == k2);
            }
        }
    }
}

// ── Typing into a search ─────────────────────────────────────────────────────

/// With a search open, a typed character is added to the end of the query
/// and Backspace takes the last one off; the search keeps its scope and its
/// matches are those of the new query, lower-cased. The only way the search
/// closes on such a key is a topic-name search whose new query matches
/// exactly one topic: that topic is then opened. The scores stay as they
/// are.
pub proof fn law_search_query_keys(v: AppView, key: Key, pick: (usize, usize))
    requires
        v.search is Some,
        key is Backspace || key is Char,
    ensures
        ({
            let s = v.search->0;
            let query = match key {
                Key::Char(c) => s.query.push(c),
                _ => if s.query.len() > 0 {
                    s.query.drop_last()
                } else {
                    s.query
                },
            };
            let m = spec_search_matches(s.scope, v.topics, v.current_topic, spec_lowercase(query));
            let w = spec_handle_key(v, key, false, pick).0;
            &&& w.responses == v.responses
            &&& w.topics == v.topics
            &&& match w.search {
                Some(t) => t.query == query && t.scope == s.scope && t.matches == m,
                None => s.scope == SearchScope::TopicName && query.len() > 0 && m.len() == 1
                    && w.current_topic == m[0].0 as int && w.current_question == 0,
            }
        }),
{
}

/// With a topic-name search open, Enter opens the topic under the cursor,
/// if there is one, at its first question, and closes the search; in a
/// question search Enter does nothing.
pub proof fn law_search_enter(v: AppView, pick: (usize, usize))
    requires
        v.search is Some,
    ensures
        ({
            let s = v.search->0;
            let w = spec_handle_key(v, Key::Enter, false, pick).0;
            &&& s.scope == SearchScope::TopicName ==> w.search is None && (s.matches.len() > 0 ==> w.current_topic
                == s.matches[s.cursor].0 as int && w.current_question == 0)
            &&& s.scope != SearchScope::TopicName ==> w == v
        }),
{
}

} // verus!
