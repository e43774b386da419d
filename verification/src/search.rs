//! The search: everything worth finding by name, and what a query finds.
use vstd::prelude::*;
use crate::capture::{recording_detail, recording_name, Recording, RecordingModel};
use crate::casing::{lowercase, unicode_lowercase};
use crate::checks::{
    all, checklist, state_icon, CheckModel, System, SystemModel,
};
use crate::games::{game_detail, source_name, Game, GameModel};
use crate::gpu::{driver_label, gpu_title, vendor_name, GpuModel};
use crate::order::{by_rank, in_order, ranks, sort, sorting_orders, Ranked};
use crate::text::{
    cat3, chars_of, contains, holds, join, lines, lines_of, starts_with, string_of, texts, trim,
    trimmed,
};
use crate::tune::{all_tweaks, change_of, tweak_title, tweaks, Tweak};
use crate::window::{page_list, pages, PageModel};

verus! {

/// One thing the search can take a person to.
#[derive(Debug, PartialEq, Eq)]
pub struct Hit {
    pub page: &'static str,
    /// The kind of thing it is.
    pub place: &'static str,
    pub title: String,
    pub detail: String,
    pub icon: &'static str,
}

/// What is said of a hit.
#[verifier::ext_equal]
pub struct HitModel {
    pub page: Seq<char>,
    pub place: Seq<char>,
    pub title: Seq<char>,
    pub detail: Seq<char>,
    pub icon: Seq<char>,
}

impl DeepView for Hit {
    type V = HitModel;

    open spec fn deep_view(&self) -> HitModel {
        HitModel {
            page: self.page@,
            place: self.place@,
            title: self.title@,
            detail: self.detail@,
            icon: self.icon@,
        }
    }
}

/// The first line of a text; nothing where there is none.
pub open spec fn opening(text: Seq<char>) -> Seq<char> {
    if lines(text).len() == 0 {
        ""@
    } else {
        lines(text)[0]
    }
}

/// The first line of a text.
pub fn first_line(text: &str) -> (r: String)
    ensures
        r@ == opening(text@),
{
    let chars = chars_of(text);
    let found = lines_of(&chars);
    if found.len() == 0 {
        String::from_str("")
    } else {
        assert(texts(found@)[0] == found@[0]@);
        string_of(found[0])
    }
}

/// A section, to be found.
pub open spec fn page_hit(p: PageModel) -> HitModel {
    HitModel { page: p.name, place: "Section"@, title: p.title, detail: p.lede, icon: p.icon }
}

/// A check, to be found.
pub open spec fn check_hit(c: CheckModel) -> HitModel {
    HitModel {
        page: "overview"@,
        place: "Readiness"@,
        title: c.title,
        detail: opening(c.detail),
        icon: state_icon(c.state),
    }
}

/// A card, to be found.
pub open spec fn gpu_hit(g: GpuModel) -> HitModel {
    HitModel {
        page: "graphics"@,
        place: "Graphics"@,
        title: gpu_title(g),
        detail: vendor_name(g.vendor) + " · "@ + driver_label(g.driver),
        icon: "video-display-symbolic"@,
    }
}

/// A setting, to be found.
pub open spec fn tweak_hit(t: Tweak, s: SystemModel) -> HitModel {
    HitModel {
        page: "performance"@,
        place: "Setting"@,
        title: tweak_title(t),
        detail: change_of(t, s.settings),
        icon: "preferences-system-symbolic"@,
    }
}

/// A game, to be found.
pub open spec fn game_hit(g: GameModel, now: u64) -> HitModel {
    HitModel {
        page: "games"@,
        place: source_name(g.source),
        title: g.name,
        detail: game_detail(g, now),
        icon: "applications-games-symbolic"@,
    }
}

/// A recording, to be found.
pub open spec fn recording_hit(r: RecordingModel) -> HitModel {
    HitModel {
        page: "capture"@,
        place: "Recording"@,
        title: recording_name(r.path),
        detail: join(recording_detail(r), " · "@),
        icon: "media-record-symbolic"@,
    }
}

/// Everything worth finding by name: the sections, each readiness check, each card, each system
/// setting, each installed game, and each recording.
pub open spec fn index_of(
    s: SystemModel,
    games: Seq<GameModel>,
    recordings: Seq<RecordingModel>,
    now: u64,
) -> Seq<HitModel> {
    page_list().map_values(|p: PageModel| page_hit(p)) + checklist(s).map_values(
        |c: CheckModel| check_hit(c),
    ) + s.gpus.map_values(|g: GpuModel| gpu_hit(g)) + all_tweaks().map_values(
        |t: Tweak| tweak_hit(t, s),
    ) + games.map_values(|g: GameModel| game_hit(g, now)) + recordings.map_values(
        |r: RecordingModel| recording_hit(r),
    )
}

proof fn lemma_map_step<A, B>(done: Seq<B>, s: Seq<A>, i: int, f: spec_fn(A) -> B)
    requires
        0 <= i < s.len(),
    ensures
        done + s.take(i + 1).map_values(f) == (done + s.take(i).map_values(f)).push(f(s[i])),
{
    assert(done + s.take(i + 1).map_values(f) =~= (done + s.take(i).map_values(f)).push(f(s[i])));
}

fn push_hit(hits: &mut Vec<Hit>, hit: Hit)
    ensures
        final(hits).deep_view() == old(hits).deep_view().push(hit.deep_view()),
{
    let ghost before = hits.deep_view();
    let ghost one = hit.deep_view();
    hits.push(hit);
    assert(hits.deep_view() =~= before.push(one));
}

fn find_pages(hits: &mut Vec<Hit>)
    ensures
        final(hits).deep_view() == old(hits).deep_view() + page_list().map_values(
            |p: PageModel| page_hit(p),
        ),
{
    let ghost done = hits.deep_view();
    let list = pages();
    let ghost every = page_list();
    let ghost f = |p: PageModel| page_hit(p);
    let mut i: usize = 0;
    assert(done + every.take(0).map_values(f) =~= done);
    while i < list.len()
        invariant
            i <= list.len(),
            every == list.deep_view(),
            f == (|p: PageModel| page_hit(p)),
            hits.deep_view() == done + every.take(i as int).map_values(f),
        decreases list.len() - i,
    {
        proof {
            lemma_map_step(done, every, i as int, f);
            assert(every[i as int] == list@[i as int].deep_view());
        }
        let p = &list[i];
        push_hit(
            hits,
            Hit {
                page: p.name,
                place: "Section",
                title: String::from_str(p.title),
                detail: String::from_str(p.lede),
                icon: p.icon,
            },
        );
        i = i + 1;
    }
    assert(every.take(i as int) =~= every);
}

fn find_checks(hits: &mut Vec<Hit>, system: &System)
    ensures
        final(hits).deep_view() == old(hits).deep_view() + checklist(
            system.deep_view(),
        ).map_values(|c: CheckModel| check_hit(c)),
{
    let ghost done = hits.deep_view();
    let list = all(system);
    let ghost every = list.deep_view();
    let ghost f = |c: CheckModel| check_hit(c);
    let mut i: usize = 0;
    assert(done + every.take(0).map_values(f) =~= done);
    while i < list.len()
        invariant
            i <= list.len(),
            every == list.deep_view(),
            f == (|c: CheckModel| check_hit(c)),
            hits.deep_view() == done + every.take(i as int).map_values(f),
        decreases list.len() - i,
    {
        proof {
            lemma_map_step(done, every, i as int, f);
            assert(every[i as int] == list@[i as int].deep_view());
        }
        push_hit(
            hits,
            Hit {
                page: "overview",
                place: "Readiness",
                title: list[i].title.clone(),
                detail: first_line(&list[i].detail),
                icon: list[i].state.icon(),
            },
        );
        i = i + 1;
    }
    assert(every.take(i as int) =~= every);
}

fn find_cards(hits: &mut Vec<Hit>, system: &System)
    ensures
        final(hits).deep_view() == old(hits).deep_view() + system.deep_view().gpus.map_values(
            |g: GpuModel| gpu_hit(g),
        ),
{
    let ghost done = hits.deep_view();
    let ghost every = system.gpus.deep_view();
    let ghost f = |g: GpuModel| gpu_hit(g);
    let mut i: usize = 0;
    assert(done + every.take(0).map_values(f) =~= done);
    while i < system.gpus.len()
        invariant
            i <= system.gpus.len(),
            every == system.gpus.deep_view(),
            f == (|g: GpuModel| gpu_hit(g)),
            hits.deep_view() == done + every.take(i as int).map_values(f),
        decreases system.gpus.len() - i,
    {
        let gpu = &system.gpus[i];
        proof {
            lemma_map_step(done, every, i as int, f);
            assert(every[i as int] == gpu.deep_view());
        }
        push_hit(
            hits,
            Hit {
                page: "graphics",
                place: "Graphics",
                title: gpu.title(),
                detail: cat3(gpu.vendor.name(), " · ", gpu.driver.label()),
                icon: "video-display-symbolic",
            },
        );
        i = i + 1;
    }
    assert(every.take(i as int) =~= every);
}

fn find_tweaks(hits: &mut Vec<Hit>, system: &System)
    ensures
        final(hits).deep_view() == old(hits).deep_view() + all_tweaks().map_values(
            |t: Tweak| tweak_hit(t, system.deep_view()),
        ),
{
    let ghost done = hits.deep_view();
    let list = tweaks();
    let ghost every = list@;
    let ghost s = system.deep_view();
    let ghost f = |t: Tweak| tweak_hit(t, s);
    let mut i: usize = 0;
    assert(done + every.take(0).map_values(f) =~= done);
    while i < list.len()
        invariant
            i <= list.len(),
            every == list@,
            s == system.deep_view(),
            f == (|t: Tweak| tweak_hit(t, s)),
            hits.deep_view() == done + every.take(i as int).map_values(f),
        decreases list.len() - i,
    {
        proof {
            lemma_map_step(done, every, i as int, f);
        }
        let tweak = list[i];
        push_hit(
            hits,
            Hit {
                page: "performance",
                place: "Setting",
                title: String::from_str(tweak.title()),
                detail: tweak.change_text(&system.observed.settings),
                icon: "preferences-system-symbolic",
            },
        );
        i = i + 1;
    }
    assert(every.take(i as int) =~= every);
}

fn find_games(hits: &mut Vec<Hit>, games: &Vec<Game>, now: u64)
    ensures
        final(hits).deep_view() == old(hits).deep_view() + games.deep_view().map_values(
            |g: GameModel| game_hit(g, now),
        ),
{
    let ghost done = hits.deep_view();
    let ghost every = games.deep_view();
    let ghost f = |g: GameModel| game_hit(g, now);
    let mut i: usize = 0;
    assert(done + every.take(0).map_values(f) =~= done);
    while i < games.len()
        invariant
            i <= games.len(),
            every == games.deep_view(),
            f == (|g: GameModel| game_hit(g, now)),
            hits.deep_view() == done + every.take(i as int).map_values(f),
        decreases games.len() - i,
    {
        proof {
            lemma_map_step(done, every, i as int, f);
            assert(every[i as int] == games@[i as int].deep_view());
        }
        push_hit(
            hits,
            Hit {
                page: "games",
                place: games[i].source.name(),
                title: games[i].name.clone(),
                detail: games[i].detail(now),
                icon: "applications-games-symbolic",
            },
        );
        i = i + 1;
    }
    assert(every.take(i as int) =~= every);
}

fn find_recordings(hits: &mut Vec<Hit>, recordings: &Vec<Recording>)
    ensures
        final(hits).deep_view() == old(hits).deep_view() + recordings.deep_view().map_values(
            |r: RecordingModel| recording_hit(r),
        ),
{
    let ghost done = hits.deep_view();
    let ghost every = recordings.deep_view();
    let ghost f = |r: RecordingModel| recording_hit(r);
    let mut i: usize = 0;
    assert(done + every.take(0).map_values(f) =~= done);
    while i < recordings.len()
        invariant
            i <= recordings.len(),
            every == recordings.deep_view(),
            f == (|r: RecordingModel| recording_hit(r)),
            hits.deep_view() == done + every.take(i as int).map_values(f),
        decreases recordings.len() - i,
    {
        proof {
            lemma_map_step(done, every, i as int, f);
            assert(every[i as int] == recordings@[i as int].deep_view());
        }
        push_hit(
            hits,
            Hit {
                page: "capture",
                place: "Recording",
                title: recordings[i].name(),
                detail: recordings[i].detail(),
                icon: "media-record-symbolic",
            },
        );
        i = i + 1;
    }
    assert(every.take(i as int) =~= every);
}

/// Everything worth finding by name. Built from what the pages are built from, so that a search
/// result can never name something the page does not show.
pub fn search_index(
    system: &System,
    games: &Vec<Game>,
    recordings: &Vec<Recording>,
    now: u64,
) -> (r: Vec<Hit>)
    ensures
        r.deep_view() == index_of(
            system.deep_view(),
            games.deep_view(),
            recordings.deep_view(),
            now,
        ),
{
    let mut hits: Vec<Hit> = Vec::new();
    assert(hits.deep_view() =~= Seq::empty());
    find_pages(&mut hits);
    find_checks(&mut hits, system);
    find_cards(&mut hits, system);
    find_tweaks(&mut hits, system);
    find_games(&mut hits, games, now);
    find_recordings(&mut hits, recordings);
    assert(hits.deep_view() =~= index_of(
        system.deep_view(),
        games.deep_view(),
        recordings.deep_view(),
        now,
    ));
    hits
}

// ---------------------------------------------------------------------------
// Finding
// ---------------------------------------------------------------------------

/// How well a hit answers a query in lower case: its title starts with it, its title holds it, or
/// its detail does.
pub open spec fn rank_in(title: Seq<char>, detail: Seq<char>, needle: Seq<char>) -> Option<u8> {
    if needle.is_prefix_of(title) {
        Some(0u8)
    } else if contains(title, needle) {
        Some(1u8)
    } else if contains(detail, needle) {
        Some(2u8)
    } else {
        None
    }
}

/// How well a title and a detail in lower case answer a query in lower case.
pub fn rank_of(title: &str, detail: &str, needle: &str) -> (r: Option<u8>)
    ensures
        r == rank_in(title@, detail@, needle@),
{
    let chars = chars_of(title);
    if starts_with(&chars, needle) {
        Some(0)
    } else if holds(&chars, needle) {
        Some(1)
    } else if holds(&chars_of(detail), needle) {
        Some(2)
    } else {
        None
    }
}

/// How well a hit answers a query in lower case.
pub open spec fn hit_rank(h: HitModel, needle: Seq<char>) -> Option<u8> {
    rank_in(unicode_lowercase(h.title), unicode_lowercase(h.detail), needle)
}

/// How well a hit answers a query in lower case, over the title first and the detail second, so
/// that typing "nvidia" puts the card above a sentence that mentions it.
pub fn rank(hit: &Hit, needle: &str) -> (r: Option<u8>)
    ensures
        r == hit_rank(hit.deep_view(), needle@),
{
    rank_of(&lowercase(&hit.title), &lowercase(&hit.detail), needle)
}

/// How many results are shown.
pub const MAX_HITS: usize = 8;

/// A hit that answers a query: how well, and where it stands.
#[derive(Debug, Clone, Copy, PartialEq, Eq)]
pub struct Scored {
    pub score: u8,
    pub place: usize,
}

impl DeepView for Scored {
    type V = (u8, usize);

    open spec fn deep_view(&self) -> (u8, usize) {
        (self.score, self.place)
    }
}

/// The best answer comes first; of two equally good the one that stands first.
impl Ranked for Scored {
    open spec fn le(a: (u8, usize), b: (u8, usize)) -> bool {
        if a.0 != b.0 {
            a.0 < b.0
        } else {
            a.1 <= b.1
        }
    }

    fn at_most(&self, other: &Scored) -> (r: bool) {
        if self.score != other.score {
            self.score < other.score
        } else {
            self.place <= other.place
        }
    }
}

/// The hits that answer a query, each with how well and where it stands.
pub open spec fn answers(hits: Seq<HitModel>, needle: Seq<char>) -> Seq<(u8, usize)>
    decreases hits.len(),
{
    if hits.len() == 0 {
        Seq::empty()
    } else {
        let before = answers(hits.drop_last(), needle);
        match hit_rank(hits.last(), needle) {
            Some(score) => before.push((score, (hits.len() - 1) as usize)),
            None => before,
        }
    }
}

/// What a query is looked for as: without the white space round it, in lower case.
pub open spec fn needle_of(query: Seq<char>) -> Seq<char> {
    unicode_lowercase(trim(query))
}

/// The places of the best answers.
pub open spec fn best(scored: Seq<(u8, usize)>) -> Seq<usize> {
    let ordered = by_rank::<Scored>(scored);
    (if ordered.len() > MAX_HITS {
        ordered.take(MAX_HITS as int)
    } else {
        ordered
    }).map_values(|a: (u8, usize)| a.1)
}

/// The places of the hits that a query in lower case finds, best first.
pub fn matches_of(index: &Vec<Hit>, needle: &str) -> (r: Vec<usize>)
    ensures
        r@ == (if needle@.len() == 0 {
            Seq::empty()
        } else {
            best(answers(index.deep_view(), needle@))
        }),
{
    let mut out: Vec<usize> = Vec::new();
    if chars_of(needle).len() == 0 {
        assert(out@ =~= Seq::empty());
        return out;
    }
    let ghost every = index.deep_view();
    let mut scored: Vec<Scored> = Vec::new();
    let mut i: usize = 0;
    assert(scored.deep_view() =~= Seq::empty());
    while i < index.len()
        invariant
            i <= index.len(),
            every == index.deep_view(),
            scored.deep_view() == answers(every.take(i as int), needle@),
        decreases index.len() - i,
    {
        assert(every.take(i + 1).drop_last() =~= every.take(i as int));
        assert(every.take(i + 1).last() == index@[i as int].deep_view());
        let ghost before = scored.deep_view();
        if let Some(score) = rank(&index[i], needle) {
            scored.push(Scored { score, place: i });
            assert(scored.deep_view() =~= before.push((score, i)));
        }
        i = i + 1;
    }
    assert(every.take(i as int) =~= every);
    let ordered = sort(scored);
    let ghost all = ordered.deep_view();
    let n: usize = if ordered.len() > MAX_HITS {
        MAX_HITS
    } else {
        ordered.len()
    };
    let ghost f = |a: (u8, usize)| a.1;
    let mut k: usize = 0;
    assert(out@ =~= all.take(0).map_values(f));
    while k < n
        invariant
            k <= n <= ordered.len(),
            all == ordered.deep_view(),
            f == (|a: (u8, usize)| a.1),
            out@ == all.take(k as int).map_values(f),
        decreases n - k,
    {
        assert(all[k as int] == ordered@[k as int].deep_view());
        out.push(ordered[k].place);
        k = k + 1;
        assert(out@ =~= all.take(k as int).map_values(f));
    }
    assert(all.take(all.len() as int) =~= all);
    out
}

/// The places of the hits that a query finds, best first.
pub fn matches(index: &Vec<Hit>, query: &str) -> (r: Vec<usize>)
    ensures
        r@ == (if needle_of(query@).len() == 0 {
            Seq::empty()
        } else {
            best(answers(index.deep_view(), needle_of(query@)))
        }),
{
    let chars = chars_of(query);
    let needle = lowercase(&string_of(trimmed(&chars)));
    matches_of(index, &needle)
}

/// What is shown where a query finds nothing.
pub fn nothing_matches(query: &str) -> (r: String)
    ensures
        r@ == "Nothing matches “"@ + trim(query@) + "”"@,
{
    let chars = chars_of(query);
    cat3("Nothing matches “", &string_of(trimmed(&chars)), "”")
}

/// The line under a result.
pub fn hit_line(hit: &Hit) -> (r: String)
    ensures
        r@ == hit.place@ + " · "@ + hit.detail@,
{
    cat3(hit.place, " · ", &hit.detail)
}

// ---------------------------------------------------------------------------
// Laws
// ---------------------------------------------------------------------------

/// Answers can be ranked: of two one comes no later, and the order is transitive.
pub proof fn answers_can_be_ranked()
    ensures
        ranks(|a: (u8, usize), b: (u8, usize)| <Scored as Ranked>::le(a, b)),
{
    let le = |a: (u8, usize), b: (u8, usize)| <Scored as Ranked>::le(a, b);
    assert forall|a: (u8, usize), b: (u8, usize)| #[trigger] le(a, b) || le(b, a) by {}
    assert forall|a: (u8, usize), b: (u8, usize), c: (u8, usize)|
        #[trigger] le(a, b) && #[trigger] le(b, c) implies le(a, c) by {}
}

proof fn lemma_answers(hits: Seq<HitModel>, needle: Seq<char>, k: int)
    requires
        0 <= k < answers(hits, needle).len(),
        hits.len() <= usize::MAX,
    ensures
        answers(hits, needle)[k].1 < hits.len(),
        hit_rank(hits[answers(hits, needle)[k].1 as int], needle) == Some(
            answers(hits, needle)[k].0,
        ),
    decreases hits.len(),
{
    if hits.len() > 0 {
        let before = answers(hits.drop_last(), needle);
        if k < before.len() {
            lemma_answers(hits.drop_last(), needle, k);
        }
    }
}

/// A search shows at most eight results, each of them answers the query, and a better answer comes
/// before a worse one.
pub proof fn results_answer_the_query(hits: Seq<HitModel>, needle: Seq<char>, i: int, j: int)
    requires
        hits.len() <= usize::MAX,
        0 <= i <= j < best(answers(hits, needle)).len(),
    ensures
        best(answers(hits, needle)).len() <= MAX_HITS,
        best(answers(hits, needle))[i] < hits.len(),
        best(answers(hits, needle))[j] < hits.len(),
        hit_rank(hits[best(answers(hits, needle))[i] as int], needle) is Some,
        hit_rank(hits[best(answers(hits, needle))[j] as int], needle) is Some,
        hit_rank(hits[best(answers(hits, needle))[i] as int], needle)->0 <= hit_rank(
            hits[best(answers(hits, needle))[j] as int],
            needle,
        )->0,
{
    let le = |a: (u8, usize), b: (u8, usize)| <Scored as Ranked>::le(a, b);
    let found = answers(hits, needle);
    let ordered = by_rank::<Scored>(found);
    answers_can_be_ranked();
    sorting_orders(found, le);
    assert(in_order(ordered, le));
    if i < j {
        assert(le(ordered[i], ordered[j]));
    }
    lemma_member(found, ordered, i);
    lemma_member(found, ordered, j);
    let a = choose|a: int| 0 <= a < found.len() && found[a] == ordered[i];
    let b = choose|b: int| 0 <= b < found.len() && found[b] == ordered[j];
    lemma_answers(hits, needle, a);
    lemma_answers(hits, needle, b);
}

proof fn lemma_answered(hits: Seq<HitModel>, needle: Seq<char>, place: int) -> (k: int)
    requires
        hits.len() <= usize::MAX,
        0 <= place < hits.len(),
        hit_rank(hits[place], needle) is Some,
    ensures
        0 <= k < answers(hits, needle).len(),
        answers(hits, needle)[k] == (hit_rank(hits[place], needle)->0, place as usize),
    decreases hits.len(),
{
    let before = answers(hits.drop_last(), needle);
    if place == hits.len() - 1 {
        before.len() as int
    } else {
        lemma_answered(hits.drop_last(), needle, place)
    }
}

/// What answers a query and is not shown is no better than anything that is, and it is not shown
/// only where the list is full.
pub proof fn nothing_better_is_left_out(hits: Seq<HitModel>, needle: Seq<char>, place: int, i: int)
    requires
        hits.len() <= usize::MAX,
        0 <= place < hits.len(),
        hit_rank(hits[place], needle) is Some,
        !best(answers(hits, needle)).contains(place as usize),
        0 <= i < MAX_HITS,
    ensures
        best(answers(hits, needle)).len() == MAX_HITS,
        hit_rank(hits[best(answers(hits, needle))[i] as int], needle)->0 <= hit_rank(
            hits[place],
            needle,
        )->0,
{
    let le = |a: (u8, usize), b: (u8, usize)| <Scored as Ranked>::le(a, b);
    let found = answers(hits, needle);
    let ordered = by_rank::<Scored>(found);
    let shown = best(found);
    answers_can_be_ranked();
    sorting_orders(found, le);
    assert(in_order(ordered, le));
    let k = lemma_answered(hits, needle, place);
    lemma_member(ordered, found, k);
    let p = choose|p: int| 0 <= p < ordered.len() && ordered[p] == found[k];
    if p < shown.len() {
        assert(shown[p] == place as usize);
    }
    assert(i < p);
    assert(le(ordered[i], ordered[p]));
    lemma_member(found, ordered, i);
    let a = choose|a: int| 0 <= a < found.len() && found[a] == ordered[i];
    lemma_answers(hits, needle, a);
    assert(shown[i] == ordered[i].1);
}

/// Every result leads to a section of the window.
pub proof fn every_result_leads_somewhere(
    s: SystemModel,
    games: Seq<GameModel>,
    recordings: Seq<RecordingModel>,
    now: u64,
    i: int,
)
    requires
        0 <= i < index_of(s, games, recordings, now).len(),
    ensures
        exists|j: int|
            0 <= j < page_list().len() && (#[trigger] page_list()[j]).name == index_of(
                s,
                games,
                recordings,
                now,
            )[i].page,
{
    let pages = page_list();
    assert(pages[0].name == "overview"@);
    assert(pages[1].name == "graphics"@);
    assert(pages[2].name == "performance"@);
    assert(pages[3].name == "games"@);
    assert(pages[4].name == "capture"@);
    if i < pages.len() {
        assert(index_of(s, games, recordings, now)[i].page == pages[i].name);
    }
}

proof fn lemma_member(s: Seq<(u8, usize)>, t: Seq<(u8, usize)>, i: int)
    requires
        s.to_multiset() == t.to_multiset(),
        0 <= i < t.len(),
    ensures
        exists|a: int| 0 <= a < s.len() && s[a] == t[i],
{
    s.to_multiset_ensures();
    t.to_multiset_ensures();
    assert(t.contains(t[i]));
    assert(t.to_multiset().count(t[i]) > 0);
    assert(s.contains(t[i]));
}

/// A title that begins with what is looked for answers best, then one that holds it, then a detail that
/// does; what holds it nowhere does not answer.
pub proof fn titles_answer_before_details(title: Seq<char>, detail: Seq<char>, needle: Seq<char>)
    ensures
        needle.is_prefix_of(title) ==> rank_in(title, detail, needle) == Some(0u8),
        !needle.is_prefix_of(title) && contains(title, needle) ==> rank_in(title, detail, needle)
            == Some(1u8),
        !contains(title, needle) && contains(detail, needle) ==> rank_in(title, detail, needle)
            == Some(2u8),
        !contains(title, needle) && !contains(detail, needle) ==> rank_in(title, detail, needle) is None,
{
    if needle.is_prefix_of(title) {
        assert(title.subrange(0int, 0int + needle.len()) == needle);
        assert(contains(title, needle));
    }
}

/// What is looked for is looked for in any case, and without the white space round it.
pub proof fn case_and_space_do_not_matter(
    h: HitModel,
    before: Seq<char>,
    query: Seq<char>,
    after: Seq<char>,
    needle: Seq<char>,
)
    requires
        crate::text::all_space(before),
        crate::text::all_space(after),
        crate::text::is_tight(query),
    ensures
        needle_of(before + query + after) == unicode_lowercase(query),
        hit_rank(h, needle) == rank_in(
            unicode_lowercase(h.title),
            unicode_lowercase(h.detail),
            needle,
        ),
{
    crate::text::trimming_undoes_padding(before, query, after);
}

/// The search covers everything that the pages show: every section, every check, every card, every
/// setting, every game and every recording, each under its own name and on its own page.
pub proof fn everything_can_be_found(
    s: SystemModel,
    games: Seq<GameModel>,
    recordings: Seq<RecordingModel>,
    now: u64,
    i: int,
)
    ensures
        index_of(s, games, recordings, now).len() == page_list().len() + checklist(s).len() + s.gpus.len()
            + all_tweaks().len() + games.len() + recordings.len(),
        0 <= i < page_list().len() ==> index_of(s, games, recordings, now)[i].title == page_list()[i].title
            && index_of(s, games, recordings, now)[i].page == page_list()[i].name,
        0 <= i < checklist(s).len() ==> {
            let hit = index_of(s, games, recordings, now)[page_list().len() + i];
            hit.title == checklist(s)[i].title && hit.page == "overview"@
        },
        0 <= i < s.gpus.len() ==> {
            let hit = index_of(s, games, recordings, now)[page_list().len() + checklist(s).len() + i];
            hit.title == gpu_title(s.gpus[i]) && hit.page == "graphics"@
        },
        0 <= i < all_tweaks().len() ==> {
            let hit = index_of(s, games, recordings, now)[page_list().len() + checklist(s).len()
                + s.gpus.len() + i];
            hit.title == tweak_title(all_tweaks()[i]) && hit.page == "performance"@
        },
        0 <= i < games.len() ==> {
            let hit = index_of(s, games, recordings, now)[page_list().len() + checklist(s).len()
                + s.gpus.len() + all_tweaks().len() + i];
            hit.title == games[i].name && hit.page == "games"@ && hit.place == source_name(games[i].source)
        },
        0 <= i < recordings.len() ==> {
            let hit = index_of(s, games, recordings, now)[page_list().len() + checklist(s).len()
                + s.gpus.len() + all_tweaks().len() + games.len() + i];
            hit.title == recording_name(recordings[i].path) && hit.page == "capture"@
        },
{
}

/// Eight results are shown at most, and as many as there are answers where there are no more.
pub proof fn eight_results_are_shown(scored: Seq<(u8, usize)>)
    ensures
        scored.len() >= 8 ==> best(scored).len() == 8,
        scored.len() < 8 ==> best(scored).len() == scored.len(),
{
    let le = |a: (u8, usize), b: (u8, usize)| <Scored as Ranked>::le(a, b);
    answers_can_be_ranked();
    sorting_orders(scored, le);
    let ordered = by_rank::<Scored>(scored);
    scored.to_multiset_ensures();
    ordered.to_multiset_ensures();
    assert(ordered.len() == scored.len());
}

} // verus!
