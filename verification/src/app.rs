//! The browser's state: which list is shown, what the search fields hold,
//! which entry is selected, and how far the detail panel is scrolled.
use vstd::prelude::*;
use vstd::view::View as HasView;

use crate::data::{api_data_wf, catalogue_keys_distinct, find_entry, value_for, ApiData, Model, Provider};
use crate::input::{deleted_before_cursor, edited_by_key, has_control, inserted_at_cursor, is_typed_char, Event, KeyCode, KeyKind, KeyPress, SearchInput, MODIFIER_CONTROL};
use crate::search::{
    all_model_hits, append_hit_items, fuzzy_match_item, hit_views, level1_items, level2_items,
    lemma_score_first_total_preorder, models_hits, order_providers, provider_hits,
    score_first, sort_hits, FuzzyHit, FuzzyMatcher, MAX_QUERY_CHARS,
};
use crate::sorting::lemma_is_stable_sorted;
use crate::text::{lowercase, str_eq, string_of, to_lowercase};

verus! {

/// One entry of the list: a provider, or a model of a provider.
#[derive(Debug, Clone)]
pub enum ListItem {
    Provider { id: String, name: String },
    Model { provider_id: String, provider_name: String, model_id: String, model_name: String },
}

/// The texts that a list entry holds.
pub enum ListItemView {
    Provider { id: Seq<char>, name: Seq<char> },
    Model {
        provider_id: Seq<char>,
        provider_name: Seq<char>,
        model_id: Seq<char>,
        model_name: Seq<char>,
    },
}

impl HasView for ListItem {
    type V = ListItemView;

    open spec fn view(&self) -> ListItemView {
        match self {
            ListItem::Provider { id, name } => ListItemView::Provider { id: id@, name: name@ },
            ListItem::Model { provider_id, provider_name, model_id, model_name } => ListItemView::Model {
                provider_id: provider_id@,
                provider_name: provider_name@,
                model_id: model_id@,
                model_name: model_name@,
            },
        }
    }
}

/// The texts of a sequence of list entries.
pub open spec fn item_views(items: Seq<ListItem>) -> Seq<ListItemView> {
    items.map_values(|it: ListItem| it@)
}

/// Which list is shown: all providers and models, or the models of one provider.
#[derive(Debug, Clone)]
pub enum View {
    Level1,
    Level2 { provider_id: String },
}

/// The selection in a list and the index of the first entry on screen, as
/// ratatui's `ListState` keeps them.
#[derive(Debug, Clone, Copy)]
pub struct ListSelection {
    pub offset: usize,
    pub selected: Option<usize>,
}

impl ListSelection {
    /// Nothing selected, scrolled to the top.
    pub fn new() -> (r: ListSelection)
        ensures
            r.offset == 0,
            r.selected is None,
    {
        ListSelection { offset: 0, selected: None }
    }

    /// The selected index, if any.
    pub fn selected(&self) -> (r: Option<usize>)
        ensures
            r == self.selected,
    {
        self.selected
    }

    /// Selects `index`; clearing the selection also scrolls back to the top.
    pub fn select(&mut self, index: Option<usize>)
        ensures
            final(self).selected == index,
            final(self).offset == (if index is None { 0 } else { old(self).offset }),
    {
        self.selected = index;
        if index.is_none() {
            self.offset = 0;
        }
    }
}

/// The browser's whole state.
pub struct App {
    pub data: ApiData,
    pub view: View,
    pub level1_input: SearchInput,
    pub level2_input: SearchInput,
    pub list_state: ListSelection,
    pub filtered_items: Vec<ListItem>,
    pub should_quit: bool,
    pub detail_scroll: u16,
    pub detail_height: u16,
    pub detail_content_height: u16,
}

impl App {
    /// The catalogue is well formed (see `api_data_wf`), and both search texts
    /// can be scored.
    pub open spec fn wf(&self) -> bool {
        &&& api_data_wf(self.data@)
        &&& query_fits(self.level1_input.value@)
        &&& query_fits(self.level2_input.value@)
    }

    /// The search field of the list that is shown.
    pub open spec fn input_of(&self) -> &SearchInput {
        match self.view {
            View::Level1 => &self.level1_input,
            View::Level2 { .. } => &self.level2_input,
        }
    }

    /// The search text of the list that is shown, lower-cased.
    pub open spec fn query(&self) -> Seq<char> {
        lowercase(self.input_of().value@)
    }

    /// The entries of the list that is shown, for its search text.
    pub open spec fn items_spec(&self) -> Seq<ListItemView> {
        match self.view {
            View::Level1 => level1_items(self.data@, self.query()),
            View::Level2 { provider_id } => level2_items(self.data@, provider_id@, self.query()),
        }
    }

    /// The search field of the list that is shown.
    pub fn current_input(&self) -> (r: &SearchInput)
        ensures
            r == self.input_of(),
    {
        match self.view {
            View::Level1 => &self.level1_input,
            View::Level2 { .. } => &self.level2_input,
        }
    }

    /// The first list's entries for `query`.
    fn filter_level1(&self, query: &str) -> (r: Vec<ListItem>)
        requires
            api_data_wf(self.data@),
            query@.len() <= MAX_QUERY_CHARS,
        ensures
            item_views(r@) == level1_items(self.data@, query@),
    {
        let mut matcher = FuzzyMatcher::new();
        let order = order_providers(&self.data);
        let ghost data = self.data@;
        let ghost q = query@;
        let query_empty = query.unicode_len() == 0;
        let mut providers: Vec<FuzzyHit> = Vec::new();
        let mut models: Vec<FuzzyHit> = Vec::new();
        proof {
            lemma_score_first_total_preorder();
            crate::text::lemma_lex_le_by_total_preorder(crate::search::name_key(data));
            lemma_is_stable_sorted(order@, crate::search::all_indices(data.len()), crate::search::name_order(data));
            assert(order@.take(0) =~= Seq::<usize>::empty());
        }
        for idx in 0..order.len()
            invariant
                data == self.data@,
                api_data_wf(data),
                q == query@,
                q.len() <= MAX_QUERY_CHARS,
                query_empty == (q.len() == 0),
                forall|p: int| 0 <= p < order@.len() ==> #[trigger] order@[p] < data.len(),
                hit_views(providers@) == provider_hits(data, order@.take(idx as int), q),
                hit_views(models@) == (if query_empty {
                    Seq::empty()
                } else {
                    all_model_hits(data, order@.take(idx as int), q)
                }),
        {
            let pi = order[idx];
            let entry = &self.data[pi];
            let pid = entry.0.as_str();
            let provider = &entry.1;
            assert(order@.take(idx + 1).drop_last() =~= order@.take(idx as int));
            assert(data[pi as int] == *entry);
            if let Some(hit) = fuzzy_match_item(pid, provider.name.as_str(), None, query, &mut matcher) {
                providers.push(hit);
            }
            assert(hit_views(providers@) =~= provider_hits(data, order@.take(idx + 1), q));
            if !query_empty {
                let ghost before = hit_views(models@);
                assert(provider.models@.take(0) =~= Seq::<(String, Model)>::empty());
                for mi in 0..provider.models.len()
                    invariant
                        api_data_wf(data),
                        data[pi as int] == *entry,
                        0 <= pi < data.len(),
                        pid@ == entry.0@,
                        *provider == entry.1,
                        q == query@,
                        q.len() <= MAX_QUERY_CHARS,
                q.len() <= MAX_QUERY_CHARS,
                        hit_views(models@) == before + models_hits(pid@, provider.name@, provider.models@.take(mi as int), q),
                {
                    let me = &provider.models[mi];
                    assert(provider.models@.take(mi + 1).drop_last() =~= provider.models@.take(mi as int));
                    assert(data[pi as int].1.models@[mi as int] == *me);
                    let ghost old_models = models@;
                    assert(provider.models@.take(mi + 1).last() == *me);
                    let ghost prev = models_hits(pid@, provider.name@, provider.models@.take(mi as int), q);
                    if let Some(hit) = fuzzy_match_item(pid, provider.name.as_str(), Some((me.0.as_str(), &me.1)), query, &mut matcher) {
                        models.push(hit);
                        assert(models@ =~= old_models.push(hit));
                        assert(hit_views(models@) =~= hit_views(old_models).push(hit@));
                        assert(models_hits(pid@, provider.name@, provider.models@.take(mi + 1), q) == prev.push(hit@));
                    } else {
                        assert(models_hits(pid@, provider.name@, provider.models@.take(mi + 1), q) == prev);
                    }
                    assert(hit_views(models@) =~= before + models_hits(pid@, provider.name@, provider.models@.take(mi + 1), q));
                }
                assert(provider.models@.take(provider.models@.len() as int) =~= provider.models@);
                assert(hit_views(models@) =~= all_model_hits(data, order@.take(idx + 1), q));
            }
        }
        assert(order@.take(order@.len() as int) =~= order@);
        let ghost ph = hit_views(providers@);
        let ghost mh = hit_views(models@);
        let providers = sort_hits(providers);
        let models = sort_hits(models);
        proof {
            lemma_is_stable_sorted(hit_views(providers@), ph, score_first());
            lemma_is_stable_sorted(hit_views(models@), mh, score_first());
            if query_empty {
                crate::sorting::lemma_stable_sort_empty(score_first());
                lemma_is_stable_sorted(Seq::<crate::search::HitView>::empty(), Seq::<crate::search::HitView>::empty(), score_first());
            }
        }
        let mut items: Vec<ListItem> = Vec::new();
        append_hit_items(&mut items, providers);
        append_hit_items(&mut items, models);
        proof {
            assert(item_views(Seq::<ListItem>::empty()) =~= Seq::<ListItemView>::empty());
        }
        items
    }

    /// The second list's entries for `query`: the matching models of the provider
    /// with key `provider_id`.
    fn filter_level2(&self, provider_id: &str, query: &str) -> (r: Vec<ListItem>)
        requires
            api_data_wf(self.data@),
            query@.len() <= MAX_QUERY_CHARS,
        ensures
            item_views(r@) == level2_items(self.data@, provider_id@, query@),
    {
        let provider = match find_entry(&self.data, provider_id) {
            Some(p) => p,
            None => {
                proof {
                    assert(item_views(Seq::<ListItem>::empty()) =~= Seq::<ListItemView>::empty());
                }
                return Vec::new();
            },
        };
        let ghost data = self.data@;
        let ghost q = query@;
        let ghost pi = choose|i: int| 0 <= i < data.len() && data[i].0@ == provider_id@ && *provider == data[i].1;
        assert(data[pi].1 == *provider);
        let mut matcher = FuzzyMatcher::new();
        let mut hits: Vec<FuzzyHit> = Vec::new();
        assert(provider.models@.take(0) =~= Seq::<(String, Model)>::empty());
        for mi in 0..provider.models.len()
            invariant
                api_data_wf(data),
                0 <= pi < data.len(),
                data[pi].1 == *provider,
                data[pi].0@ == provider_id@,
                q == query@,
                q.len() <= MAX_QUERY_CHARS,
                hit_views(hits@) == models_hits(provider_id@, provider.name@, provider.models@.take(mi as int), q),
        {
            let me = &provider.models[mi];
            assert(provider.models@.take(mi + 1).drop_last() =~= provider.models@.take(mi as int));
            assert(provider.models@.take(mi + 1).last() == *me);
            assert(data[pi].1.models@[mi as int] == *me);
            let ghost old_hits = hits@;
            let ghost prev = models_hits(provider_id@, provider.name@, provider.models@.take(mi as int), q);
            if let Some(hit) = fuzzy_match_item(provider_id, provider.name.as_str(), Some((me.0.as_str(), &me.1)), query, &mut matcher) {
                hits.push(hit);
                assert(hits@ =~= old_hits.push(hit));
                assert(hit_views(hits@) =~= hit_views(old_hits).push(hit@));
            }
        }
        assert(provider.models@.take(provider.models@.len() as int) =~= provider.models@);
        let ghost mh = hit_views(hits@);
        let hits = sort_hits(hits);
        proof {
            lemma_score_first_total_preorder();
            lemma_is_stable_sorted(hit_views(hits@), mh, score_first());
        }
        let mut items: Vec<ListItem> = Vec::new();
        append_hit_items(&mut items, hits);
        proof {
            assert(item_views(Seq::<ListItem>::empty()) =~= Seq::<ListItemView>::empty());
        }
        items
    }

    /// Everything but the list and its selection is as in `other`.
    pub open spec fn same_settings(&self, other: &App) -> bool {
        &&& self.data == other.data
        &&& self.view == other.view
        &&& self.level1_input == other.level1_input
        &&& self.level2_input == other.level2_input
        &&& self.should_quit == other.should_quit
        &&& self.detail_scroll == other.detail_scroll
        &&& self.detail_height == other.detail_height
        &&& self.detail_content_height == other.detail_content_height
    }

    /// Rebuilds the list for the current search text, keeping the selection
    /// within the list (none when the list is empty).
    pub fn update_filtered(&mut self)
        requires
            old(self).wf(),
        ensures
            final(self).same_settings(old(self)),
            item_views(final(self).filtered_items@) == old(self).items_spec(),
            final(self).list_state == selection_within(
                old(self).list_state,
                final(self).filtered_items@.len(),
            ),
            old(self).input_of().value@.len() == 0 ==> old(self).query().len() == 0,
            shows_current_matches(final(self)),
            selection_in_list(final(self)),
    {
        let query = to_lowercase(self.current_input().value());
        let items = match &self.view {
            View::Level1 => self.filter_level1(query.as_str()),
            View::Level2 { provider_id } => self.filter_level2(provider_id.as_str(), query.as_str()),
        };
        self.filtered_items = items;
        let selected = match self.list_state.selected() {
            Some(i) => i,
            None => 0,
        };
        if self.filtered_items.len() == 0 {
            self.list_state.select(None);
        } else if selected >= self.filtered_items.len() {
            self.list_state.select(Some(self.filtered_items.len() - 1));
        }
    }

    /// Rebuilds the list and selects its first entry, if it has one.
    fn refilter_from_top(&mut self)
        requires
            old(self).wf(),
        ensures
            final(self).same_settings(old(self)),
            item_views(final(self).filtered_items@) == old(self).items_spec(),
            final(self).list_state == first_selected(
                old(self).list_state,
                final(self).filtered_items@.len(),
            ),
            old(self).input_of().value@.len() == 0 ==> old(self).query().len() == 0,
    {
        self.update_filtered();
        if self.filtered_items.len() != 0 {
            self.list_state.select(Some(0));
        }
    }

    /// The browser on `data`: the first list, empty search fields, the first
    /// entry selected.
    pub fn new(data: ApiData) -> (r: App)
        requires
            api_data_wf(data@),
        ensures
            r.wf(),
            r.data == data,
            r.view == View::Level1,
            r.level1_input.value@.len() == 0 && r.level1_input.cursor == 0,
            r.level2_input.value@.len() == 0 && r.level2_input.cursor == 0,
            item_views(r.filtered_items@) == level1_items(data@, Seq::<char>::empty()),
            r.list_state == first_selected(ListSelection { offset: 0, selected: None }, r.filtered_items@.len()),
            !r.should_quit,
            r.detail_scroll == 0 && r.detail_height == 0 && r.detail_content_height == 0,
            shows_current_matches(&r),
            selection_in_list(&r),
            scroll_in_range(&r),
    {
        let mut app = App {
            data,
            view: View::Level1,
            level1_input: SearchInput::new(),
            level2_input: SearchInput::new(),
            list_state: ListSelection::new(),
            filtered_items: Vec::new(),
            should_quit: false,
            detail_scroll: 0,
            detail_height: 0,
            detail_content_height: 0,
        };
        let ghost q = app.query();
        app.update_filtered();
        assert(q =~= Seq::<char>::empty());
        assert(app.query() == q);
        if app.filtered_items.len() != 0 {
            app.list_state.select(Some(0));
        }
        app
    }
}

impl App {
    /// The search field of the list that is shown, for editing.
    pub fn current_input_mut(&mut self) -> (r: &mut SearchInput)
        ensures
            *r == *old(self).input_of(),
            final(self).view == old(self).view,
            *final(self).input_of() == *final(r),
            match old(self).view {
                View::Level1 => final(self).level2_input == old(self).level2_input,
                View::Level2 { .. } => final(self).level1_input == old(self).level1_input,
            },
            final(self).data == old(self).data,
            final(self).list_state == old(self).list_state,
            final(self).filtered_items == old(self).filtered_items,
            final(self).should_quit == old(self).should_quit,
            final(self).detail_scroll == old(self).detail_scroll,
            final(self).detail_height == old(self).detail_height,
            final(self).detail_content_height == old(self).detail_content_height,
    {
        match self.view {
            View::Level1 => &mut self.level1_input,
            View::Level2 { .. } => &mut self.level2_input,
        }
    }
}

impl App {
    /// Moves the selection one entry up, stopping at the first entry; with
    /// nothing selected, selects the first entry. Does nothing on an empty list.
    fn move_up(&mut self)
        ensures
            final(self).same_settings(old(self)),
            final(self).filtered_items == old(self).filtered_items,
            final(self).list_state == moved_up(old(self).list_state, old(self).filtered_items@.len()),
    {
        if self.filtered_items.len() == 0 {
            return;
        }
        let i = match self.list_state.selected() {
            Some(i) => {
                if i == 0 {
                    0
                } else {
                    i - 1
                }
            },
            None => 0,
        };
        self.list_state.select(Some(i));
    }

    /// Moves the selection one entry down, stopping at the last entry; with
    /// nothing selected, selects the first entry. Does nothing on an empty list.
    fn move_down(&mut self)
        ensures
            final(self).same_settings(old(self)),
            final(self).filtered_items == old(self).filtered_items,
            final(self).list_state == moved_down(old(self).list_state, old(self).filtered_items@.len()),
    {
        if self.filtered_items.len() == 0 {
            return;
        }
        let last = self.filtered_items.len() - 1;
        let i = match self.list_state.selected() {
            Some(i) => {
                if i >= last {
                    last
                } else {
                    i + 1
                }
            },
            None => 0,
        };
        self.list_state.select(Some(i));
    }

    /// Keeps the detail panel's scroll within its content: at most the content's
    /// height less the panel's.
    pub fn clamp_detail_scroll(&mut self)
        ensures
            final(self).detail_scroll == clamped_scroll(
                old(self).detail_scroll,
                old(self).detail_content_height,
                old(self).detail_height,
            ),
            final(self).data == old(self).data,
            final(self).view == old(self).view,
            final(self).level1_input == old(self).level1_input,
            final(self).level2_input == old(self).level2_input,
            final(self).list_state == old(self).list_state,
            final(self).filtered_items == old(self).filtered_items,
            final(self).should_quit == old(self).should_quit,
            final(self).detail_height == old(self).detail_height,
            final(self).detail_content_height == old(self).detail_content_height,
            scroll_in_range(final(self)),
    {
        let max_scroll = self.detail_content_height.saturating_sub(self.detail_height);
        if self.detail_scroll > max_scroll {
            self.detail_scroll = max_scroll;
        }
    }

    /// The selected entry, if the selection lies within the list.
    pub fn get_selected(&self) -> (r: Option<&ListItem>)
        ensures
            match r {
                Some(it) => selected_item(self.list_state, self.filtered_items@) == Some(*it),
                None => selected_item(self.list_state, self.filtered_items@) is None,
            },
    {
        let idx = match self.list_state.selected() {
            Some(i) => i,
            None => return None,
        };
        if idx < self.filtered_items.len() {
            Some(&self.filtered_items[idx])
        } else {
            None
        }
    }

    /// The provider with key `id`.
    pub fn get_provider(&self, id: &str) -> (r: Option<&Provider>)
        requires
            catalogue_keys_distinct(self.data@),
        ensures
            match r {
                Some(p) => value_for(self.data@, id@) == Some(*p),
                None => value_for(self.data@, id@) is None,
            },
    {
        find_entry(&self.data, id)
    }

    /// The model with key `model_id` of the provider with key `provider_id`.
    pub fn get_model(&self, provider_id: &str, model_id: &str) -> (r: Option<&Model>)
        requires
            catalogue_keys_distinct(self.data@),
        ensures
            match r {
                Some(m) => model_for(self.data@, provider_id@, model_id@) == Some(*m),
                None => model_for(self.data@, provider_id@, model_id@) is None,
            },
    {
        let provider = match find_entry(&self.data, provider_id) {
            Some(p) => p,
            None => return None,
        };
        find_entry(&provider.models, model_id)
    }

    /// Enter: on a provider in the first list, shows that provider's models, with
    /// an empty search field and the first model selected.
    fn handle_enter(&mut self)
        requires
            old(self).wf(),
        ensures
            final(self).wf(),
            enter_outcome(old(self), final(self)),
    {
        let idx = match self.list_state.selected() {
            Some(i) => i,
            None => return,
        };
        if idx >= self.filtered_items.len() {
            return;
        }
        let target = match &self.filtered_items[idx] {
            ListItem::Provider { id, .. } => match &self.view {
                View::Level1 => Some(id.clone()),
                View::Level2 { .. } => None,
            },
            ListItem::Model { .. } => None,
        };
        if let Some(id) = target {
            self.view = View::Level2 { provider_id: id };
            self.level2_input = SearchInput::new();
            self.detail_scroll = 0;
            let ghost q = self.query();
            self.refilter_from_top();
            assert(q =~= Seq::<char>::empty());
        }
    }
}

/// The selected entry, if the selection lies within `items`.
pub open spec fn selected_item(sel: ListSelection, items: Seq<ListItem>) -> Option<ListItem> {
    match sel.selected {
        Some(i) => if i < items.len() { Some(items[i as int]) } else { None },
        None => None,
    }
}

/// The model with key `model_id` of the provider with key `provider_id`, if any.
pub open spec fn model_for(data: Seq<(String, Provider)>, provider_id: Seq<char>, model_id: Seq<char>) -> Option<Model> {
    match value_for(data, provider_id) {
        Some(p) => value_for(p.models@, model_id),
        None => None,
    }
}

/// The selection after moving up in a list of `len` entries.
pub open spec fn moved_up(sel: ListSelection, len: nat) -> ListSelection {
    if len == 0 {
        sel
    } else {
        let i = match sel.selected {
            Some(i) => if i == 0 { 0 } else { (i - 1) as usize },
            None => 0,
        };
        ListSelection { offset: sel.offset, selected: Some(i) }
    }
}

/// The selection after moving down in a list of `len` entries.
pub open spec fn moved_down(sel: ListSelection, len: nat) -> ListSelection {
    if len == 0 {
        sel
    } else {
        let i = match sel.selected {
            Some(i) => if i >= len - 1 { (len - 1) as usize } else { (i + 1) as usize },
            None => 0,
        };
        ListSelection { offset: sel.offset, selected: Some(i) }
    }
}

/// `a - b`, or 0 when `b` is larger.
pub open spec fn sat_sub(a: int, b: int) -> int {
    if a >= b { a - b } else { 0 }
}

/// `scroll`, lowered to the content's height less the panel's when above it.
pub open spec fn clamped_scroll(scroll: u16, content_height: u16, height: u16) -> u16 {
    let max_scroll = sat_sub(content_height as int, height as int);
    if scroll > max_scroll { max_scroll as u16 } else { scroll }
}

/// What Enter does: on a provider selected in the first list, the second list of
/// that provider with an empty search field, the detail panel at the top and the
/// first entry selected; anything else changes nothing.
pub open spec fn enter_outcome(old: &App, new: &App) -> bool {
    match selected_item(old.list_state, old.filtered_items@) {
        Some(ListItem::Provider { id, .. }) if old.view is Level1 => {
            &&& new.data == old.data
            &&& new.view matches View::Level2 { provider_id } && provider_id@ == id@
            &&& new.level1_input == old.level1_input
            &&& new.level2_input.value@.len() == 0 && new.level2_input.cursor == 0
            &&& new.should_quit == old.should_quit
            &&& new.detail_scroll == 0
            &&& new.detail_height == old.detail_height
            &&& new.detail_content_height == old.detail_content_height
            &&& new.query().len() == 0
            &&& item_views(new.filtered_items@) == level2_items(old.data@, id@, Seq::<char>::empty())
            &&& shows_matches(new, old.list_state)
        },
        _ => *new == *old,
    }
}

impl App {
    /// Handles one terminal event; only key presses do anything.
    ///
    /// Control-C and `q` pressed with no modifier quit. Esc goes back from a provider's models to the first
    /// list, and quits from the first list. Up and Down move the
    /// selection, Enter opens a provider, PageUp and PageDown scroll the detail
    /// panel by five lines. Any other key edits the current search field, unless
    /// the edited text, lower-cased, would be longer than `MAX_QUERY_CHARS`;
    /// when that changes its text the list is rebuilt.
    pub fn handle_event(&mut self, event: &Event)
        requires
            old(self).wf(),
        ensures
            final(self).wf(),
            event_outcome(old(self), *event, final(self)),
            typing_outcome(old(self), *event, final(self)),
    {
        if let Event::Key(key) = event {
            if key.kind != KeyKind::Press {
                return;
            }
            let modifiers = key.modifiers;
            assert((modifiers == 0 || modifiers == 1) ==> modifiers & MODIFIER_CONTROL != MODIFIER_CONTROL)
                by (bit_vector);
            match key.code {
                KeyCode::Char('c') if key.modifiers & MODIFIER_CONTROL == MODIFIER_CONTROL => {
                    self.should_quit = true;
                },
                KeyCode::Char('q') if key.modifiers == 0 => {
                    self.should_quit = true;
                },
                KeyCode::Esc => match self.view {
                    View::Level2 { .. } => {
                        self.view = View::Level1;
                        self.detail_scroll = 0;
                        self.refilter_from_top();
                    },
                    View::Level1 => {
                        self.should_quit = true;
                    },
                },
                KeyCode::Up => {
                    self.move_up();
                    self.detail_scroll = 0;
                },
                KeyCode::Down => {
                    self.move_down();
                    self.detail_scroll = 0;
                },
                KeyCode::Enter => {
                    self.handle_enter();
                },
                KeyCode::PageUp => {
                    self.detail_scroll = self.detail_scroll.saturating_sub(5);
                    self.clamp_detail_scroll();
                },
                KeyCode::PageDown => {
                    self.detail_scroll = self.detail_scroll.saturating_add(5);
                    self.clamp_detail_scroll();
                },
                _ => {
                    let prev = string_of(self.current_input().value());
                    let prev_cursor = self.current_input().cursor();
                    self.current_input_mut().handle_key(key.code, key.modifiers);
                    let edited_query = to_lowercase(self.current_input().value());
                    if self.current_input().value().unicode_len() != 0 && edited_query.unicode_len() > MAX_QUERY_CHARS {
                        let input = self.current_input_mut();
                        input.value = prev;
                        input.cursor = prev_cursor;
                    } else if !str_eq(self.current_input().value(), prev.as_str()) {
                        self.detail_scroll = 0;
                        self.refilter_from_top();
                    }
                },
            }
        }
    }
}

/// A search text is empty, or short enough once lower-cased to be scored.
pub open spec fn query_fits(text: Seq<char>) -> bool {
    text.len() == 0 || lowercase(text).len() <= MAX_QUERY_CHARS
}

/// The list is rebuilt for `new`'s search text and its first entry selected,
/// starting from the selection `before`.
pub open spec fn shows_matches(new: &App, before: ListSelection) -> bool {
    &&& item_views(new.filtered_items@) == new.items_spec()
    &&& new.list_state == first_selected(before, new.filtered_items@.len())
}

/// The text and cursor that the field keeps after an edit to `edited`: the
/// edit, where its text can be scored, else the field as it was.
pub open spec fn kept_edit(before: &SearchInput, edited: (Seq<char>, nat)) -> (Seq<char>, nat) {
    if query_fits(edited.0) {
        edited
    } else {
        (before.value@, before.cursor as nat)
    }
}

/// Typing a character with no modifier but shift (other than a `q` with no
/// modifier at all) puts it into the current search field at the cursor, and
/// Backspace with no modifier deletes the character before the cursor.
pub open spec fn typing_outcome(old: &App, event: Event, new: &App) -> bool {
    match event {
        Event::Key(key) => key.kind == KeyKind::Press ==> {
            let before = old.input_of();
            let after = new.input_of();
            &&& (is_typed_char(key.code, key.modifiers) && !(key.code == KeyCode::Char('q') && key.modifiers == 0)) ==> (
            after.value@,
            after.cursor as nat,
            ) == kept_edit(before, inserted_at_cursor(before.value@, before.cursor as nat, key.code->Char_0))
            &&& (key.code == KeyCode::Backspace && key.modifiers == 0) ==> (after.value@, after.cursor as nat)
                == kept_edit(before, deleted_before_cursor(before.value@, before.cursor as nat))
        },
        Event::Other => true,
    }
}

/// What handling `event` does to the browser (see `App::handle_event`).
pub open spec fn event_outcome(old: &App, event: Event, new: &App) -> bool {
    match event {
        Event::Key(key) => if key.kind == KeyKind::Press {
            key_outcome(old, key, new)
        } else {
            *new == *old
        },
        Event::Other => *new == *old,
    }
}

/// What a key press does to the browser.
pub open spec fn key_outcome(old: &App, key: KeyPress, new: &App) -> bool {
    let len = old.filtered_items@.len();
    if (key.code == KeyCode::Char('c') && has_control(key.modifiers)) || (key.code == KeyCode::Char('q') && key.modifiers == 0)
        || (key.code == KeyCode::Esc && old.view is Level1) {
        *new == App { should_quit: true, ..*old }
    } else if key.code == KeyCode::Esc {
        &&& new.data == old.data
        &&& new.view == View::Level1
        &&& new.level1_input == old.level1_input
        &&& new.level2_input == old.level2_input
        &&& new.should_quit == old.should_quit
        &&& new.detail_scroll == 0
        &&& new.detail_height == old.detail_height
        &&& new.detail_content_height == old.detail_content_height
        &&& shows_matches(new, old.list_state)
    } else if key.code == KeyCode::Up {
        *new == App { list_state: moved_up(old.list_state, len), detail_scroll: 0, ..*old }
    } else if key.code == KeyCode::Down {
        *new == App { list_state: moved_down(old.list_state, len), detail_scroll: 0, ..*old }
    } else if key.code == KeyCode::Enter {
        enter_outcome(old, new)
    } else if key.code == KeyCode::PageUp {
        let up = sat_sub(old.detail_scroll as int, 5) as u16;
        *new == App {
            detail_scroll: clamped_scroll(up, old.detail_content_height, old.detail_height),
            ..*old
        }
    } else if key.code == KeyCode::PageDown {
        let down = (if old.detail_scroll + 5 > u16::MAX { u16::MAX as int } else { old.detail_scroll + 5 }) as u16;
        *new == App {
            detail_scroll: clamped_scroll(down, old.detail_content_height, old.detail_height),
            ..*old
        }
    } else {
        let edited = kept_edit(old.input_of(), edited_by_key(
            old.input_of().value@,
            old.input_of().cursor as nat,
            key.code,
            key.modifiers,
        ));
        &&& new.data == old.data
        &&& new.view == old.view
        &&& new.input_of().value@ == edited.0
        &&& new.input_of().cursor as nat == edited.1
        &&& (if old.view is Level1 {
            new.level2_input == old.level2_input
        } else {
            new.level1_input == old.level1_input
        })
        &&& new.should_quit == old.should_quit
        &&& new.detail_height == old.detail_height
        &&& new.detail_content_height == old.detail_content_height
        &&& if edited.0 == old.input_of().value@ {
            &&& new.detail_scroll == old.detail_scroll
            &&& new.filtered_items == old.filtered_items
            &&& new.list_state == old.list_state
        } else {
            &&& new.detail_scroll == 0
            &&& shows_matches(new, old.list_state)
        }
    }
}

/// The selection after the list is rebuilt with `len` entries: none for an empty
/// list, else the old selection (none counting as the first entry) moved back
/// onto the last entry when it is past the end.
pub open spec fn selection_within(sel: ListSelection, len: nat) -> ListSelection {
    let i = match sel.selected {
        Some(i) => i,
        None => 0,
    };
    if len == 0 {
        ListSelection { offset: 0, selected: None }
    } else if i >= len {
        ListSelection { offset: sel.offset, selected: Some((len - 1) as usize) }
    } else {
        sel
    }
}

/// The selection after the list is rebuilt with `len` entries and its first entry
/// selected.
pub open spec fn first_selected(sel: ListSelection, len: nat) -> ListSelection {
    if len == 0 {
        ListSelection { offset: 0, selected: None }
    } else {
        ListSelection { offset: sel.offset, selected: Some(0) }
    }
}

/// The selection, if any, is an entry of the list.
pub open spec fn selection_in_list(app: &App) -> bool {
    match app.list_state.selected {
        Some(i) => i < app.filtered_items@.len(),
        None => true,
    }
}

/// The detail panel is scrolled no further than its content allows.
pub open spec fn scroll_in_range(app: &App) -> bool {
    app.detail_scroll <= sat_sub(app.detail_content_height as int, app.detail_height as int)
}

/// The list holds the matches for the current search text.
pub open spec fn shows_current_matches(app: &App) -> bool {
    item_views(app.filtered_items@) == app.items_spec()
}

/// Handling an event keeps the list showing the matches for the search text,
/// keeps the selection within the list, and keeps the detail panel's scroll
/// within its content.
pub proof fn lemma_event_keeps_invariants(old: &App, event: Event, new: &App)
    requires
        event_outcome(old, event, new),
    ensures
        shows_current_matches(old) ==> shows_current_matches(new),
        selection_in_list(old) ==> selection_in_list(new),
        scroll_in_range(old) ==> scroll_in_range(new),
{
    if let Event::Key(key) = event {
        if key.kind == KeyKind::Press {
            if !((key.code == KeyCode::Char('c') && has_control(key.modifiers)) || (key.code == KeyCode::Char('q') && key.modifiers == 0)
                || (key.code == KeyCode::Esc && old.view is Level1)) && key.code != KeyCode::Esc
                && key.code != KeyCode::Up && key.code != KeyCode::Down && key.code != KeyCode::Enter
                && key.code != KeyCode::PageUp && key.code != KeyCode::PageDown {
                assert(new.input_of().value@ == kept_edit(old.input_of(), edited_by_key(
                    old.input_of().value@,
                    old.input_of().cursor as nat,
                    key.code,
                    key.modifiers,
                )).0);
                if new.input_of().value@ == old.input_of().value@ {
                    assert(new.query() == old.query());
                    assert(new.items_spec() == old.items_spec());
                }
            }
        }
    }
}

/// After a key press that changes the search text or the list shown, the list
/// holds the matches for the new search text and its first entry is selected
/// (nothing, when it is empty).
pub proof fn lemma_new_search_selects_first(old: &App, key: KeyPress, new: &App)
    requires
        key.kind == KeyKind::Press,
        event_outcome(old, Event::Key(key), new),
        new.input_of().value@ != old.input_of().value@ || new.view != old.view,
    ensures
        shows_current_matches(new),
        new.filtered_items@.len() > 0 ==> new.list_state.selected == Some(0usize),
        new.filtered_items@.len() == 0 ==> new.list_state.selected is None,
{
}

/// Enter on a provider in the first list, then Esc, comes back to the first list
/// with the same search text and the same entries, the first one selected.
pub proof fn lemma_esc_undoes_enter(a: &App, enter: KeyPress, b: &App, esc: KeyPress, c: &App)
    requires
        shows_current_matches(a),
        a.view is Level1,
        enter.code == KeyCode::Enter,
        enter.kind == KeyKind::Press,
        key_outcome(a, enter, b),
        b.view is Level2,
        esc.code == KeyCode::Esc,
        esc.kind == KeyKind::Press,
        key_outcome(b, esc, c),
    ensures
        c.data == a.data,
        c.view == View::Level1,
        c.level1_input == a.level1_input,
        item_views(c.filtered_items@) == item_views(a.filtered_items@),
        c.list_state.selected == (if a.filtered_items@.len() == 0 { None } else { Some(0usize) }),
        c.detail_scroll == 0,
        !c.should_quit || a.should_quit,
{
    assert(c.query() == a.query());
    assert(c.items_spec() == a.items_spec());
    assert(c.filtered_items@.len() == a.filtered_items@.len()) by {
        assert(item_views(c.filtered_items@).len() == c.filtered_items@.len());
        assert(item_views(a.filtered_items@).len() == a.filtered_items@.len());
    }
}

/// Moving down after moving up comes back to the same entry, unless the
/// selection was at the top.
pub proof fn lemma_down_undoes_up(sel: ListSelection, len: nat)
    requires
        sel.selected matches Some(i) && 0 < i < len,
    ensures
        moved_down(moved_up(sel, len), len) == sel,
{
}

/// Enter on a provider in the first list shows all that provider's models, in
/// the catalogue's order.
pub proof fn lemma_enter_shows_all_models(old: &App, key: KeyPress, new: &App)
    requires
        old.wf(),
        old.view is Level1,
        key.code == KeyCode::Enter,
        key.kind == KeyKind::Press,
        key_outcome(old, key, new),
        selected_item(old.list_state, old.filtered_items@) matches Some(ListItem::Provider { id, .. })
            && value_for(old.data@, id@) is Some,
    ensures
        ({
            let id = selected_item(old.list_state, old.filtered_items@)->0->Provider_id;
            let p = value_for(old.data@, id@)->0;
            &&& new.view matches View::Level2 { provider_id } && provider_id@ == id@
            &&& item_views(new.filtered_items@) == p.models@.map_values(
                |m: (String, Model)| crate::search::model_entry_item(id@, p.name@, m),
            )
        }),
{
    let id = selected_item(old.list_state, old.filtered_items@)->0->Provider_id;
    crate::search::lemma_empty_search_lists_all_models(old.data@, id@);
}

/// PageUp after PageDown restores the detail panel's scroll when five more
/// lines were in range.
pub proof fn lemma_page_up_undoes_page_down(a: &App, down: KeyPress, b: &App, up: KeyPress, c: &App)
    requires
        down.code == KeyCode::PageDown,
        down.kind == KeyKind::Press,
        key_outcome(a, down, b),
        up.code == KeyCode::PageUp,
        up.kind == KeyKind::Press,
        key_outcome(b, up, c),
        a.detail_scroll + 5 <= sat_sub(a.detail_content_height as int, a.detail_height as int),
    ensures
        *c == *a,
{
    assert(b.detail_scroll == a.detail_scroll + 5);
}

} // verus!
