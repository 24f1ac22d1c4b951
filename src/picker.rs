use vstd::prelude::*;

use crate::matcher::{
    candidate_texts, effective_case, is_top_matches, match_strings, valid_positions, StringMatch,
    is_match_entry,
};
use crate::repository::{channel_names_of, Channel, PijulRepository};
use crate::store::PijulStore;

verus! {

/// How many matches a non-empty query shows at most.
pub const MAX_MATCHES: usize = 100;

/// A channel that matched the current query, with the positions of the
/// matched characters in its name.
pub struct ChannelEntry {
    pub channel: Channel,
    pub positions: Vec<usize>,
}

/// What an entry is: the channel's name and its highlight positions.
pub open spec fn entry_view(e: ChannelEntry) -> (Seq<char>, Seq<usize>) {
    (e.channel.name@, e.positions@)
}

pub open spec fn entries_view(es: Seq<ChannelEntry>) -> Seq<(Seq<char>, Seq<usize>)> {
    es.map_values(|e: ChannelEntry| entry_view(e))
}

/// The entries of the matcher's result `ms` over the channel names `all`.
pub open spec fn entries_of(all: Seq<Seq<char>>, ms: Seq<StringMatch>) -> Seq<(Seq<char>, Seq<usize>)> {
    ms.map_values(|m: StringMatch| (all[m.candidate_id as int], m.positions@))
}

/// The entries that a query shows over the channel names `all`: every
/// channel in order with no highlights for an empty query, else the best
/// matches of the fuzzy matcher (case-insensitive but for an upper-case
/// character in the query), best first.
pub open spec fn is_filter_result(all: Seq<Seq<char>>, q: Seq<char>, r: Seq<(Seq<char>, Seq<usize>)>) -> bool {
    if q.len() == 0 {
        r == all.map_values(|n: Seq<char>| (n, Seq::<usize>::empty()))
    } else {
        exists|ms: Seq<StringMatch>|
            is_top_matches(all, q, effective_case(q, false, true), MAX_MATCHES as nat, ms)
                && r == #[trigger] entries_of(all, ms)
    }
}

/// The selection after the match list changed to `n` entries: back to the top
/// for an empty query, else kept where it is still in range, else the last.
pub open spec fn clamp_selection(selected: nat, reset: bool, n: nat) -> nat {
    if reset || n == 0 {
        0
    } else if selected < n {
        selected
    } else {
        (n - 1) as nat
    }
}

/// The picker's state as a value.
pub struct PickerState {
    pub all: Seq<Seq<char>>,
    pub matches: Seq<(Seq<char>, Seq<usize>)>,
    pub selected: nat,
    pub epoch: u64,
    pub dismissed: bool,
}

/// The selection is a valid index of the matches, or zero when there are none.
pub open spec fn selection_valid(s: PickerState) -> bool {
    if s.matches.len() == 0 {
        s.selected == 0
    } else {
        s.selected < s.matches.len()
    }
}

/// The state after a new filter request: a new epoch, which invalidates every
/// earlier request.
pub open spec fn after_begin(s: PickerState) -> PickerState {
    PickerState { epoch: (if s.epoch == u64::MAX { 0 } else { s.epoch + 1 }) as u64, ..s }
}

/// The state after the result `m` of the request made at `epoch` for a query
/// that was empty or not arrives: applied only when that request is the
/// latest and the picker has not been dismissed.
pub open spec fn after_apply(
    s: PickerState,
    epoch: u64,
    query_empty: bool,
    m: Seq<(Seq<char>, Seq<usize>)>,
) -> PickerState {
    if epoch == s.epoch && !s.dismissed {
        PickerState {
            matches: m,
            selected: clamp_selection(s.selected, query_empty, m.len()),
            ..s
        }
    } else {
        s
    }
}

/// The state after dismissal: no request made before it can be applied.
pub open spec fn after_dismiss(s: PickerState) -> PickerState {
    PickerState { dismissed: true, ..after_begin(s) }
}

/// A filter request: the epoch it was made in and its query.
pub struct FilterRequest {
    pub epoch: u64,
    pub query: String,
}

/// The signal that the user confirmed a channel.
pub struct Confirmation {
    pub channel: Channel,
    pub positions: Vec<usize>,
    pub secondary: bool,
}

/// The signal that the picker was dismissed.
pub struct DismissEvent {}

/// One row of the list as it is shown.
pub struct RenderedMatch {
    pub index: usize,
    pub label: String,
    pub highlights: Vec<usize>,
    pub selected: bool,
}

/// The core of the channel picker: the candidates, the current matches and
/// the selection, with the epoch that tells stale filter results apart.
pub struct ChannelPickerDelegate {
    matches: Vec<ChannelEntry>,
    all_channels: Vec<Channel>,
    selected_index: usize,
    epoch: u64,
    is_dismissed: bool,
}

impl View for ChannelPickerDelegate {
    type V = PickerState;

    closed spec fn view(&self) -> PickerState {
        PickerState {
            all: channel_names_of(self.all_channels@),
            matches: entries_view(self.matches@),
            selected: self.selected_index as nat,
            epoch: self.epoch,
            dismissed: self.is_dismissed,
        }
    }
}

fn copy_positions(p: &Vec<usize>) -> (r: Vec<usize>)
    ensures
        r@ == p@,
{
    let mut r: Vec<usize> = Vec::new();
    let mut i: usize = 0;
    while i < p.len()
        invariant
            i <= p@.len(),
            r@ == p@.subrange(0, i as int),
        decreases p.len() - i,
    {
        r.push(p[i]);
        i = i + 1;
    }
    assert(r@ =~= p@);
    r
}

/// The entries that `query` shows over the channels `all`. For a non-empty
/// query every highlight position is a character index into the entry's own
/// name, the positions increase, and each matches its query character.
pub fn filter_channels(all: &Vec<Channel>, query: &str) -> (r: Vec<ChannelEntry>)
    ensures
        is_filter_result(channel_names_of(all@), query@, entries_view(r@)),
        query@.len() > 0 ==> forall|k: int|
            0 <= k < r@.len() ==> valid_positions(
                (#[trigger] r@[k]).channel.name@,
                query@,
                effective_case(query@, false, true),
                r@[k].positions@,
            ),
{
    let ghost names = channel_names_of(all@);
    let mut r: Vec<ChannelEntry> = Vec::new();
    if query.unicode_len() == 0 {
        let mut i: usize = 0;
        while i < all.len()
            invariant
                i <= all@.len(),
                names == channel_names_of(all@),
                entries_view(r@) == names.subrange(0, i as int).map_values(
                    |n: Seq<char>| (n, Seq::<usize>::empty()),
                ),
            decreases all.len() - i,
        {
            let e = ChannelEntry { channel: Channel { name: all[i].name.clone() }, positions: Vec::new() };
            let ghost before = r@;
            r.push(e);
            proof {
                assert(entries_view(r@) =~= entries_view(before).push(entry_view(e)));
                assert(names.subrange(0, i + 1).map_values(|n: Seq<char>| (n, Seq::<usize>::empty()))
                    =~= names.subrange(0, i as int).map_values(|n: Seq<char>| (n, Seq::<usize>::empty())).push((names[i as int], Seq::<usize>::empty())));
            }
            i = i + 1;
        }
        proof {
            assert(names.subrange(0, all@.len() as int) =~= names);
        }
        return r;
    }
    let mut texts: Vec<String> = Vec::new();
    let mut i: usize = 0;
    while i < all.len()
        invariant
            i <= all@.len(),
            texts@.len() == i,
            forall|j: int| 0 <= j < i ==> (#[trigger] texts@[j])@ == all@[j].name@,
        decreases all.len() - i,
    {
        texts.push(all[i].name.clone());
        i = i + 1;
    }
    proof {
        assert(candidate_texts(texts@) =~= names);
    }
    let ms = match_strings(&texts, query, false, true, MAX_MATCHES);
    let ghost cs = effective_case(query@, false, true);
    let mut k: usize = 0;
    while k < ms.len()
        invariant
            k <= ms@.len(),
            names == channel_names_of(all@),
            is_top_matches(names, query@, cs, MAX_MATCHES as nat, ms@),
            texts@.len() == all@.len(),
            forall|j: int| 0 <= j < all@.len() ==> (#[trigger] texts@[j])@ == all@[j].name@,
            forall|j: int|
                0 <= j < ms@.len() ==> valid_positions(
                    texts@[(#[trigger] ms@[j]).candidate_id as int]@,
                    query@,
                    cs,
                    ms@[j].positions@,
                ),
            entries_view(r@) == entries_of(names, ms@.subrange(0, k as int)),
            forall|j: int|
                0 <= j < r@.len() ==> valid_positions(
                    (#[trigger] r@[j]).channel.name@,
                    query@,
                    cs,
                    r@[j].positions@,
                ),
        decreases ms.len() - k,
    {
        let m = &ms[k];
        assert(is_match_entry(names, query@, cs, ms@[k as int]));
        let e = ChannelEntry {
            channel: Channel { name: all[m.candidate_id].name.clone() },
            positions: copy_positions(&m.positions),
        };
        assert(valid_positions(texts@[m.candidate_id as int]@, query@, cs, m.positions@));
        let ghost before = r@;
        r.push(e);
        proof {
            assert(entries_view(r@) =~= entries_view(before).push(entry_view(e)));
            assert(entries_of(names, ms@.subrange(0, k + 1)) =~= entries_of(names, ms@.subrange(0, k as int)).push(entry_view(e)));
        }
        k = k + 1;
    }
    proof {
        assert(ms@.subrange(0, ms@.len() as int) =~= ms@);
        assert(entries_view(r@) == entries_of(names, ms@));
    }
    r
}

impl ChannelPickerDelegate {
    /// A picker over the given channels, with no matches shown yet.
    pub fn new(channels: Vec<Channel>) -> (r: Self)
        ensures
            r@.all == channel_names_of(channels@),
            r@.matches.len() == 0,
            r@.selected == 0,
            !r@.dismissed,
            r.wf(),
    {
        ChannelPickerDelegate {
            matches: Vec::new(),
            all_channels: channels,
            selected_index: 0,
            epoch: 0,
            is_dismissed: false,
        }
    }

    /// A picker over the channels of the store's repository.
    pub fn from_store<R: PijulRepository>(store: &PijulStore<R>) -> (r: Self)
        ensures
            store.repository_view().lists_no_channels() ==> r@.all.len() == 0,
            r@.matches.len() == 0,
            r@.selected == 0,
            !r@.dismissed,
            r.wf(),
    {
        let channels = store.repository().list_channels();
        Self::new(channels)
    }

    /// Every invariant of the picker holds: the selection is valid.
    pub open spec fn wf(&self) -> bool {
        selection_valid(self@)
    }

    pub fn placeholder_text(&self) -> (r: String)
        ensures
            r@ == "Select Channel…"@,
    {
        String::from_str("Select Channel…")
    }

    /// The channels the picker chooses from.
    pub fn all_channels(&self) -> (r: &Vec<Channel>)
        ensures
            channel_names_of(r@) == self@.all,
    {
        &self.all_channels
    }

    pub fn match_count(&self) -> (r: usize)
        ensures
            r == self@.matches.len(),
    {
        self.matches.len()
    }

    pub fn selected_index(&self) -> (r: usize)
        ensures
            r == self@.selected,
    {
        self.selected_index
    }

    pub fn is_dismissed(&self) -> (r: bool)
        ensures
            r == self@.dismissed,
    {
        self.is_dismissed
    }

    /// Selects the entry at `ix`, clamped to the last entry (zero when there
    /// are none).
    pub fn set_selected_index(&mut self, ix: usize)
        ensures
            final(self)@ == (PickerState {
                selected: clamp_selection(ix as nat, false, old(self)@.matches.len()),
                ..old(self)@
            }),
            final(self).wf(),
    {
        let n = self.matches.len();
        self.selected_index = if n == 0 {
            0
        } else if ix < n {
            ix
        } else {
            n - 1
        };
    }

    /// Starts filtering for `query`: the returned request is now the latest,
    /// and the result of every earlier one will be dropped when it arrives.
    pub fn begin_update(&mut self, query: &str) -> (r: FilterRequest)
        ensures
            final(self)@ == after_begin(old(self)@),
            r.epoch == final(self)@.epoch,
            r.query@ == query@,
            old(self).wf() ==> final(self).wf(),
    {
        self.epoch = self.epoch.wrapping_add(1);
        FilterRequest { epoch: self.epoch, query: String::from_str(query) }
    }

    /// Shows the result `matches` of `request` if that request is the latest
    /// and the picker was not dismissed; else changes nothing. Returns whether
    /// it was shown.
    pub fn apply_matches(&mut self, request: &FilterRequest, matches: Vec<ChannelEntry>) -> (r: bool)
        requires
            old(self).wf(),
            is_filter_result(old(self)@.all, request.query@, entries_view(matches@)),
        ensures
            final(self)@ == after_apply(
                old(self)@,
                request.epoch,
                request.query@.len() == 0,
                entries_view(matches@),
            ),
            r == (request.epoch == old(self)@.epoch && !old(self)@.dismissed),
            final(self).wf(),
    {
        if request.epoch != self.epoch || self.is_dismissed {
            return false;
        }
        let reset = request.query.unicode_len() == 0;
        let n = matches.len();
        self.matches = matches;
        if reset || n == 0 {
            self.selected_index = 0;
        } else if self.selected_index >= n {
            self.selected_index = n - 1;
        }
        true
    }

    /// Filters for `query` and shows the result at once.
    pub fn update_matches(&mut self, query: &str)
        requires
            old(self).wf(),
        ensures
            final(self)@.all == old(self)@.all,
            final(self)@.epoch == after_begin(old(self)@).epoch,
            final(self)@.dismissed == old(self)@.dismissed,
            !old(self)@.dismissed ==> is_filter_result(old(self)@.all, query@, final(self)@.matches),
            !old(self)@.dismissed ==> final(self)@.selected == clamp_selection(
                old(self)@.selected,
                query@.len() == 0,
                final(self)@.matches.len(),
            ),
            old(self)@.dismissed ==> final(self)@.matches == old(self)@.matches
                && final(self)@.selected == old(self)@.selected,
            final(self).wf(),
    {
        let request = self.begin_update(query);
        let matches = filter_channels(&self.all_channels, query);
        self.apply_matches(&request, matches);
    }

    /// The confirmation of the selected entry, or `None` when there are no
    /// matches.
    pub fn confirm(&self, secondary: bool) -> (r: Option<Confirmation>)
        requires
            self.wf(),
        ensures
            self@.matches.len() == 0 <==> r is None,
            r matches Some(c) ==> (c.channel.name@, c.positions@) == self@.matches[self@.selected as int]
                && c.secondary == secondary,
    {
        if self.matches.len() == 0 {
            return None;
        }
        let e = &self.matches[self.selected_index];
        Some(Confirmation {
            channel: Channel { name: e.channel.name.clone() },
            positions: copy_positions(&e.positions),
            secondary,
        })
    }

    /// Dismisses the picker: no filter result requested before this will be
    /// shown.
    pub fn dismissed(&mut self) -> (r: DismissEvent)
        ensures
            final(self)@ == after_dismiss(old(self)@),
            old(self).wf() ==> final(self).wf(),
    {
        self.epoch = self.epoch.wrapping_add(1);
        self.is_dismissed = true;
        DismissEvent {}
    }

    /// The row for the entry at `ix`: its name, its highlights, and whether it
    /// is selected.
    pub fn render_match(&self, ix: usize, selected: bool) -> (r: RenderedMatch)
        requires
            ix < self@.matches.len(),
        ensures
            r.index == ix,
            (r.label@, r.highlights@) == self@.matches[ix as int],
            r.selected == selected,
    {
        let e = &self.matches[ix];
        RenderedMatch {
            index: ix,
            label: e.channel.name.clone(),
            highlights: copy_positions(&e.positions),
            selected,
        }
    }
}

/// The picker shell: routes the user's input to the delegate. The selection
/// moves by one and stops at either end of the list.
pub struct ChannelPicker {
    delegate: ChannelPickerDelegate,
}

impl View for ChannelPicker {
    type V = PickerState;

    closed spec fn view(&self) -> PickerState {
        self.delegate@
    }
}

impl ChannelPicker {
    pub fn new(delegate: ChannelPickerDelegate) -> (r: Self)
        requires
            delegate.wf(),
        ensures
            r@ == delegate@,
            r.wf(),
    {
        ChannelPicker { delegate }
    }

    pub closed spec fn wf(&self) -> bool {
        self.delegate.wf()
    }

    pub fn delegate(&self) -> (r: &ChannelPickerDelegate)
        requires
            self.wf(),
        ensures
            r@ == self@,
            r.wf(),
    {
        &self.delegate
    }

    /// The query text changed.
    pub fn set_query(&mut self, query: &str)
        requires
            old(self).wf(),
        ensures
            final(self)@.all == old(self)@.all,
            final(self)@.dismissed == old(self)@.dismissed,
            !old(self)@.dismissed ==> is_filter_result(old(self)@.all, query@, final(self)@.matches),
            !old(self)@.dismissed ==> final(self)@.selected == clamp_selection(
                old(self)@.selected,
                query@.len() == 0,
                final(self)@.matches.len(),
            ),
            old(self)@.dismissed ==> final(self)@.matches == old(self)@.matches
                && final(self)@.selected == old(self)@.selected,
            final(self).wf(),
    {
        self.delegate.update_matches(query);
    }

    /// Moves the selection down one entry, staying on the last.
    pub fn select_next(&mut self)
        requires
            old(self).wf(),
        ensures
            final(self)@ == (PickerState {
                selected: clamp_selection(old(self)@.selected + 1, false, old(self)@.matches.len()),
                ..old(self)@
            }),
            final(self).wf(),
    {
        let ix = self.delegate.selected_index();
        if ix < self.delegate.match_count() {
            self.delegate.set_selected_index(ix + 1);
        } else {
            self.delegate.set_selected_index(ix);
        }
    }

    /// Moves the selection up one entry, staying on the first.
    pub fn select_previous(&mut self)
        requires
            old(self).wf(),
        ensures
            final(self)@ == (PickerState {
                selected: if old(self)@.selected == 0 {
                    0
                } else {
                    (old(self)@.selected - 1) as nat
                },
                ..old(self)@
            }),
            final(self).wf(),
    {
        let ix = self.delegate.selected_index();
        self.delegate.set_selected_index(if ix == 0 {
            0
        } else {
            ix - 1
        });
    }

    /// Confirms the selected entry; `None` when there are no matches.
    pub fn confirm(&self, secondary: bool) -> (r: Option<Confirmation>)
        requires
            self.wf(),
        ensures
            self@.matches.len() == 0 <==> r is None,
            r matches Some(c) ==> (c.channel.name@, c.positions@) == self@.matches[self@.selected as int]
                && c.secondary == secondary,
    {
        self.delegate.confirm(secondary)
    }

    /// Dismisses the picker.
    pub fn dismiss(&mut self) -> (r: DismissEvent)
        requires
            old(self).wf(),
        ensures
            final(self)@ == after_dismiss(old(self)@),
            final(self).wf(),
    {
        self.delegate.dismissed()
    }
}

/// Two filter requests made one after the other, before either result
/// arrives: whichever order the results arrive in, what is shown afterwards is
/// the second request's result alone, with the selection it alone would give.
pub proof fn lemma_latest_request_wins(
    s: PickerState,
    first_empty: bool,
    first: Seq<(Seq<char>, Seq<usize>)>,
    second_empty: bool,
    second: Seq<(Seq<char>, Seq<usize>)>,
)
    requires
        !s.dismissed,
    ensures
        ({
            let s1 = after_begin(s);
            let s2 = after_begin(s1);
            let alone = after_apply(s1, s1.epoch, second_empty, second);
            let in_order = after_apply(after_apply(s2, s1.epoch, first_empty, first), s2.epoch, second_empty, second);
            let reversed = after_apply(after_apply(s2, s2.epoch, second_empty, second), s1.epoch, first_empty, first);
            &&& in_order.matches == second
            &&& reversed.matches == second
            &&& in_order.matches == alone.matches
            &&& in_order.selected == alone.selected
            &&& reversed.selected == alone.selected
        }),
{
}

/// Once dismissed, the picker shows no filter result, whatever request it
/// belongs to.
pub proof fn lemma_dismissal_is_final(
    s: PickerState,
    epoch: u64,
    query_empty: bool,
    m: Seq<(Seq<char>, Seq<usize>)>,
)
    ensures
        after_apply(after_dismiss(s), epoch, query_empty, m) == after_dismiss(s),
{
}

/// Every operation keeps the selection a valid index of the matches.
pub proof fn lemma_selection_stays_valid(
    s: PickerState,
    ix: nat,
    epoch: u64,
    query_empty: bool,
    m: Seq<(Seq<char>, Seq<usize>)>,
)
    requires
        selection_valid(s),
    ensures
        selection_valid(after_begin(s)),
        selection_valid(after_apply(s, epoch, query_empty, m)),
        selection_valid(after_dismiss(s)),
        selection_valid(PickerState { selected: clamp_selection(ix, false, s.matches.len()), ..s }),
{
}

} // verus!
