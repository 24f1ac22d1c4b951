use pijul_picker::matcher::{match_strings, StringMatch};
use pijul_picker::picker::{filter_channels, ChannelPicker, ChannelPickerDelegate};
use pijul_picker::repository::{
    Channel, FakePijulRepository, PijulRepository, RealPijulRepository,
};
use pijul_picker::store::PijulStore;

fn channels(names: &[&str]) -> Vec<Channel> {
    names.iter().map(|n| Channel::new(n)).collect()
}

fn names_of(d: &ChannelPickerDelegate) -> Vec<String> {
    (0..d.match_count())
        .map(|ix| d.render_match(ix, false).label)
        .collect()
}

fn strings(names: &[&str]) -> Vec<String> {
    names.iter().map(|n| n.to_string()).collect()
}

fn ids(ms: &[StringMatch]) -> Vec<usize> {
    ms.iter().map(|m| m.candidate_id).collect()
}

#[test]
fn prefix_match_ranks_first_and_non_matches_are_left_out() {
    let mut d = ChannelPickerDelegate::new(channels(&["main", "feature-x", "main-2"]));
    d.update_matches("main");
    assert_eq!(names_of(&d), vec!["main", "main-2"]);
}

#[test]
fn empty_query_shows_all_in_order_without_highlights() {
    let mut d = ChannelPickerDelegate::new(channels(&["alpha", "beta"]));
    d.update_matches("");
    assert_eq!(names_of(&d), vec!["alpha", "beta"]);
    for ix in 0..d.match_count() {
        assert!(d.render_match(ix, false).highlights.is_empty());
    }
}

#[test]
fn empty_query_keeps_original_order_not_rank() {
    let all = channels(&["a-very-long-name", "b", "cc"]);
    let entries = filter_channels(&all, "");
    let names: Vec<String> = entries.iter().map(|e| e.channel.name.clone()).collect();
    assert_eq!(names, vec!["a-very-long-name", "b", "cc"]);
    assert!(entries.iter().all(|e| e.positions.is_empty()));
}

#[test]
fn later_query_wins_over_earlier_in_flight_result() {
    let mut d = ChannelPickerDelegate::new(channels(&["main", "master", "mx", "dev"]));
    let first = d.begin_update("m");
    let second = d.begin_update("ma");
    let first_result = filter_channels(d.all_channels(), &first.query);
    let second_result = filter_channels(d.all_channels(), &second.query);
    assert!(!d.apply_matches(&first, first_result));
    assert_eq!(d.match_count(), 0);
    assert!(d.apply_matches(&second, second_result));
    assert_eq!(names_of(&d), vec!["main", "master"]);
}

#[test]
fn stale_result_arriving_last_is_dropped() {
    let mut d = ChannelPickerDelegate::new(channels(&["main", "master", "mx", "dev"]));
    let first = d.begin_update("m");
    let second = d.begin_update("ma");
    let first_result = filter_channels(d.all_channels(), &first.query);
    let second_result = filter_channels(d.all_channels(), &second.query);
    assert!(d.apply_matches(&second, second_result));
    assert!(!d.apply_matches(&first, first_result));
    assert_eq!(names_of(&d), vec!["main", "master"]);
}

#[test]
fn highlights_index_the_entry_name_in_increasing_order() {
    let all = channels(&["feature/main-line", "my_branch", "xyz"]);
    let entries = filter_channels(&all, "mb");
    assert_eq!(entries.len(), 1);
    assert_eq!(entries[0].channel.name, "my_branch");
    assert_eq!(entries[0].positions, vec![0, 3]);
    let entries = filter_channels(&all, "fml");
    assert_eq!(entries.len(), 1);
    let e = &entries[0];
    let n = e.channel.name.chars().count();
    assert!(e.positions.iter().all(|p| *p < n));
    assert!(e.positions.windows(2).all(|w| w[0] < w[1]));
    assert_eq!(e.positions, vec![0, 8, 13]);
}

#[test]
fn highlights_count_characters_not_bytes() {
    let entries = filter_channels(&channels(&["été-main"]), "m");
    assert_eq!(entries[0].positions, vec![4]);
}

#[test]
fn selection_stays_in_range_after_navigation_and_filtering() {
    let mut d = ChannelPickerDelegate::new(channels(&["main", "main-2", "maint", "dev"]));
    d.update_matches("");
    d.set_selected_index(10);
    assert_eq!(d.selected_index(), 3);
    d.update_matches("main");
    assert_eq!(d.match_count(), 3);
    assert_eq!(d.selected_index(), 2);
    d.set_selected_index(1);
    d.update_matches("main-");
    assert_eq!(d.match_count(), 1);
    assert_eq!(d.selected_index(), 0);
    d.update_matches("zzz");
    assert_eq!(d.match_count(), 0);
    assert_eq!(d.selected_index(), 0);
    d.set_selected_index(4);
    assert_eq!(d.selected_index(), 0);
}

#[test]
fn selection_kept_when_still_in_range_and_reset_on_empty_query() {
    let mut d = ChannelPickerDelegate::new(channels(&["main", "main-2", "maint", "dev"]));
    d.update_matches("ma");
    d.set_selected_index(1);
    d.update_matches("mai");
    assert_eq!(d.selected_index(), 1);
    d.update_matches("");
    assert_eq!(d.selected_index(), 0);
}

#[test]
fn confirm_with_no_matches_is_a_no_op() {
    let d = ChannelPickerDelegate::new(channels(&["main"]));
    assert!(d.confirm(false).is_none());
    let mut d = ChannelPickerDelegate::new(Vec::new());
    d.update_matches("x");
    assert!(d.confirm(true).is_none());
}

#[test]
fn confirm_carries_selected_entry_and_flag() {
    let mut d = ChannelPickerDelegate::new(channels(&["main", "dev"]));
    d.update_matches("");
    d.set_selected_index(1);
    let c = d.confirm(true).unwrap();
    assert_eq!(c.channel.name, "dev");
    assert!(c.secondary);
    assert!(c.positions.is_empty());
}

#[test]
fn dismissal_drops_in_flight_results() {
    let mut d = ChannelPickerDelegate::new(channels(&["main", "dev"]));
    let req = d.begin_update("");
    let result = filter_channels(d.all_channels(), &req.query);
    let _event = d.dismissed();
    assert!(d.is_dismissed());
    assert!(!d.apply_matches(&req, result));
    assert_eq!(d.match_count(), 0);
    d.update_matches("");
    assert_eq!(d.match_count(), 0);
}

#[test]
fn render_match_projects_entry_and_selection() {
    let mut d = ChannelPickerDelegate::new(channels(&["main", "dev"]));
    d.update_matches("dv");
    let row = d.render_match(0, true);
    assert_eq!(row.index, 0);
    assert_eq!(row.label, "dev");
    assert_eq!(row.highlights, vec![0, 2]);
    assert!(row.selected);
}

#[test]
fn placeholder_text_is_fixed() {
    let d = ChannelPickerDelegate::new(Vec::new());
    assert_eq!(d.placeholder_text(), "Select Channel…");
}

#[test]
fn empty_candidate_list_gives_no_matches() {
    let mut d = ChannelPickerDelegate::new(Vec::new());
    d.update_matches("");
    assert_eq!(d.match_count(), 0);
    d.update_matches("abc");
    assert_eq!(d.match_count(), 0);
}

#[test]
fn match_scores_have_exact_values() {
    let ms = match_strings(&strings(&["main"]), "main", false, true, 10);
    assert_eq!(ms.len(), 1);
    assert_eq!(ms[0].score, 12);
    assert_eq!(ms[0].positions, vec![0, 1, 2, 3]);
    let ms = match_strings(&strings(&["xaxb"]), "ab", false, true, 10);
    assert_eq!(ms[0].score, 2);
    assert_eq!(ms[0].positions, vec![1, 3]);
    let ms = match_strings(&strings(&["x-ab"]), "ab", false, true, 10);
    assert_eq!(ms[0].score, 6);
}

#[test]
fn ranking_prefers_score_then_shorter_then_earlier() {
    let ms = match_strings(&strings(&["xaxb", "ab-long", "ab", "zz", "ab"]), "ab", false, true, 10);
    assert_eq!(ids(&ms), vec![2, 4, 1, 0]);
}

#[test]
fn results_truncated_to_the_best_max_results() {
    let ms = match_strings(&strings(&["xaxb", "ab-long", "ab", "ab"]), "ab", false, true, 2);
    assert_eq!(ids(&ms), vec![2, 3]);
    let ms = match_strings(&strings(&["ab", "ab"]), "ab", false, true, 0);
    assert!(ms.is_empty());
    let ms = match_strings(&strings(&["a", "b", "c"]), "", false, true, 2);
    assert_eq!(ids(&ms), vec![0, 1, 2]);
    assert!(ms.iter().all(|m| m.score == 0 && m.positions.is_empty()));
}

#[test]
fn case_rules_follow_options() {
    let cands = strings(&["Main", "main"]);
    assert_eq!(ids(&match_strings(&cands, "main", false, true, 10)), vec![0, 1]);
    assert_eq!(ids(&match_strings(&cands, "Main", false, true, 10)), vec![0]);
    assert_eq!(ids(&match_strings(&cands, "Main", false, false, 10)), vec![0, 1]);
    assert_eq!(ids(&match_strings(&cands, "main", true, false, 10)), vec![1]);
}

#[test]
fn matcher_handles_empty_candidates_and_unicode() {
    assert!(match_strings(&Vec::new(), "a", false, true, 10).is_empty());
    let ms = match_strings(&strings(&["ünïcode"]), "nc", false, true, 10);
    assert_eq!(ms[0].positions, vec![1, 3]);
}

#[test]
fn channel_list_output_is_split_into_trimmed_lines() {
    let cs = RealPijulRepository::channels_from_output(true, "main\n  dev \n\nfeature\n");
    let names: Vec<String> = cs.into_iter().map(|c| c.name).collect();
    assert_eq!(names, vec!["main", "dev", "", "feature"]);
    let cs = RealPijulRepository::channels_from_output(true, "a\r\nb");
    let names: Vec<String> = cs.into_iter().map(|c| c.name).collect();
    assert_eq!(names, vec!["a", "b"]);
    assert!(RealPijulRepository::channels_from_output(true, "").is_empty());
}

#[test]
fn failed_channel_listing_gives_no_channels() {
    assert!(RealPijulRepository::channels_from_output(false, "main\n").is_empty());
}

#[test]
fn real_repository_keeps_its_directory() {
    let repo = RealPijulRepository::new("/tmp/repo");
    assert_eq!(repo.cwd(), "/tmp/repo");
}

#[test]
fn fake_repository_lists_no_channels() {
    let store = PijulStore::new(FakePijulRepository {});
    assert!(store.repository().list_channels().is_empty());
    let mut d = ChannelPickerDelegate::from_store(&store);
    d.update_matches("");
    assert_eq!(d.match_count(), 0);
}

#[test]
fn shell_navigation_stops_at_both_ends() {
    let mut p = ChannelPicker::new(ChannelPickerDelegate::new(channels(&["a", "b", "c"])));
    p.set_query("");
    p.select_previous();
    assert_eq!(p.delegate().selected_index(), 0);
    p.select_next();
    p.select_next();
    p.select_next();
    assert_eq!(p.delegate().selected_index(), 2);
    p.select_previous();
    assert_eq!(p.confirm(false).unwrap().channel.name, "b");
    p.set_query("c");
    assert_eq!(p.delegate().selected_index(), 0);
    assert_eq!(p.confirm(false).unwrap().channel.name, "c");
    let _event = p.dismiss();
    assert!(p.delegate().is_dismissed());
    p.set_query("");
    assert_eq!(p.delegate().match_count(), 1);
}

#[test]
fn channel_names_are_trimmed_of_unicode_white_space() {
    let cs = RealPijulRepository::channels_from_output(true, "\u{a0}\n\u{3000}main\u{2009}\n\u{85}dev\u{a0}x\u{202f}");
    let names: Vec<String> = cs.into_iter().map(|c| c.name).collect();
    assert_eq!(names, vec!["", "main", "dev\u{a0}x"]);
    assert!(names.iter().all(|n| n.trim() == n));
}

#[test]
fn fake_repository_picker_starts_with_no_channels() {
    let repo = FakePijulRepository {};
    assert_eq!(repo.list_channels().len(), 0);
    let d = ChannelPickerDelegate::from_store(&PijulStore::new(FakePijulRepository {}));
    assert_eq!(d.all_channels().len(), 0);
}

#[test]
fn non_ascii_capital_in_query_switches_to_exact_case() {
    assert!(match_strings(&strings(&["ÉA"]), "Éa", false, true, 10).is_empty());
    assert_eq!(ids(&match_strings(&strings(&["ÉA", "Éa"]), "Éa", false, true, 10)), vec![1]);
    assert_eq!(ids(&match_strings(&strings(&["ÉA"]), "Éa", false, false, 10)), vec![0]);
}

#[test]
fn caseless_matching_folds_non_ascii_letters() {
    assert_eq!(ids(&match_strings(&strings(&["É", "x"]), "é", false, true, 10)), vec![0]);
    let entries = filter_channels(&channels(&["Été-main", "dev"]), "été");
    assert_eq!(entries.len(), 1);
    assert_eq!(entries[0].positions, vec![0, 1, 2]);
    assert!(match_strings(&strings(&["é"]), "É", false, true, 10).is_empty());
    assert_eq!(ids(&match_strings(&strings(&["é"]), "É", false, false, 10)), vec![0]);
}
