//! The three-way merge: every entry of the source and target snapshot is
//! classified as create, update or delete by joining the two snapshots on a
//! case-insensitive, separator-normalized relative-path key, applying the
//! configured comparison strategies to paired files, and filtering creates
//! and updates through the skip-folder list (deletes always pass).

use vstd::prelude::*;
use vstd::string::*;

use crate::configuration::{OptionsView, ProgramOptions};
use crate::paths::{
    act_views, action_wf, actions_wf, clone_string_vec, decompose, rec_views, record_wf,
    records_wf, spec_contains_run, spec_identical, spec_match_extension, ActionType, ActionView,
    FileInfoParser, FileInfoParserAction, FileInfoParserActionList, FileRecordView, PathParser,
    UNIX_SPLITTER,
};
use crate::utilities::{lower_of, lowercase};

verus! {

/// The join key of a record: its relative segments joined with the default
/// separator and case-folded.
pub open spec fn record_key(f: FileRecordView) -> Seq<char> {
    lower_of(crate::paths::join_with(f.segment->0, UNIX_SPLITTER))
}

/// Some record of `items` carries the key `k`.
pub open spec fn has_key(items: Seq<FileRecordView>, k: Seq<char>) -> bool {
    exists|i: int| 0 <= i < items.len() && record_key(#[trigger] items[i]) == k
}

/// The records that pass the extension allow-list.
pub open spec fn ext_filter(items: Seq<FileRecordView>, exts: Seq<Seq<char>>) -> Seq<
    FileRecordView,
> {
    items.filter(|f: FileRecordView| spec_match_extension(f, exts))
}

/// The records of `a` whose key no record of `b` carries.
pub open spec fn only_in_first(a: Seq<FileRecordView>, b: Seq<FileRecordView>) -> Seq<
    FileRecordView,
> {
    a.filter(|f: FileRecordView| !has_key(b, record_key(f)))
}

/// The last record of `items` carrying the key `k` (arbitrary when none
/// does): later records shadow earlier ones with the same key.
pub open spec fn last_with_key(items: Seq<FileRecordView>, k: Seq<char>) -> FileRecordView
    decreases items.len(),
{
    if items.len() == 0 {
        arbitrary()
    } else if record_key(items.last()) == k {
        items.last()
    } else {
        last_with_key(items.drop_last(), k)
    }
}

/// Whether the enabled comparison strategies flag the pair as changed: any
/// enabled strategy reporting a difference suffices.
pub open spec fn spec_needs_update(o: OptionsView, a: FileRecordView, b: FileRecordView) -> bool {
    ||| (o.update_compare_size && a.size != b.size)
    ||| (o.update_compare_modified && a.modified != b.modified)
    ||| (o.update_compare_md5 && a.content_hash != b.content_hash)
}

/// A pair produces an update only when both sides are files and an enabled
/// strategy reports a difference; pairs involving a directory are skipped.
pub open spec fn pair_needs_update(o: OptionsView, a: FileRecordView, b: FileRecordView) -> bool {
    a.is_file && b.is_file && spec_needs_update(o, a, b)
}

pub open spec fn create_action(f: FileRecordView) -> ActionView {
    ActionView { source: Some(f), destination: None, action_type: ActionType::Create }
}

pub open spec fn delete_action(g: FileRecordView) -> ActionView {
    ActionView { source: None, destination: Some(g), action_type: ActionType::Delete }
}

pub open spec fn update_action(f: FileRecordView, g: FileRecordView) -> ActionView {
    ActionView { source: Some(f), destination: Some(g), action_type: ActionType::Update }
}

/// The create actions: source records whose key is absent from the target.
pub open spec fn spec_creates(s: Seq<FileRecordView>, t: Seq<FileRecordView>) -> Seq<ActionView> {
    only_in_first(s, t).map_values(|f: FileRecordView| create_action(f))
}

/// The delete actions: target records whose key is absent from the source.
pub open spec fn spec_deletes(t: Seq<FileRecordView>, s: Seq<FileRecordView>) -> Seq<ActionView> {
    only_in_first(t, s).map_values(|g: FileRecordView| delete_action(g))
}

/// The key-joined pairs: each source record whose key the target carries,
/// paired with the last target record carrying it.
pub open spec fn pairs_of(s: Seq<FileRecordView>, t: Seq<FileRecordView>) -> Seq<
    (FileRecordView, FileRecordView),
> {
    s.filter(|f: FileRecordView| has_key(t, record_key(f))).map_values(
        |f: FileRecordView| (f, last_with_key(t, record_key(f))),
    )
}

/// The update actions among a sequence of key-joined pairs.
pub open spec fn updates_from_pairs(
    o: OptionsView,
    pairs: Seq<(FileRecordView, FileRecordView)>,
) -> Seq<ActionView> {
    pairs.filter(|p: (FileRecordView, FileRecordView)| pair_needs_update(o, p.0, p.1)).map_values(
        |p: (FileRecordView, FileRecordView)| update_action(p.0, p.1),
    )
}

/// The update actions among the key-joined pairs.
pub open spec fn spec_updates(
    o: OptionsView,
    s: Seq<FileRecordView>,
    t: Seq<FileRecordView>,
) -> Seq<ActionView> {
    updates_from_pairs(o, pairs_of(s, t))
}

/// All classified actions for one already-filtered snapshot pair, in the
/// order they are enumerated: creates, then deletes, then updates.
pub open spec fn spec_enumerated(
    o: OptionsView,
    s: Seq<FileRecordView>,
    t: Seq<FileRecordView>,
) -> Seq<ActionView> {
    spec_creates(s, t) + spec_deletes(t, s) + spec_updates(o, s, t)
}

/// The action's source lies under one of the skip folders: its relative
/// segments contain the folder's segments as a contiguous run.
pub open spec fn spec_skipped(a: ActionView, skips: Seq<Seq<char>>) -> bool {
    exists|i: int|
        0 <= i < skips.len() && spec_contains_run(
            a.source->0.segment->0,
            decompose(#[trigger] skips[i]),
        )
}

/// The skip-folder filter: with no skip folders everything passes unchanged;
/// otherwise the creates and updates that lie under a skip folder are
/// dropped, and every delete is kept, after them.
pub open spec fn spec_filter_skip(actions: Seq<ActionView>, skips: Seq<Seq<char>>) -> Seq<
    ActionView,
> {
    if skips.len() == 0 {
        actions
    } else {
        actions.filter(
            |a: ActionView| a.action_type != ActionType::Delete && !spec_skipped(a, skips),
        ) + actions.filter(|a: ActionView| a.action_type == ActionType::Delete)
    }
}

/// The full classification of one snapshot pair: extension filter on both
/// sides, the three-way classification, then the skip-folder filter.
pub open spec fn merge_pair_spec(
    o: OptionsView,
    s: Seq<FileRecordView>,
    t: Seq<FileRecordView>,
) -> Seq<ActionView> {
    spec_filter_skip(
        spec_enumerated(o, ext_filter(s, o.extensions), ext_filter(t, o.extensions)),
        o.skip_folders,
    )
}

/// When no record at or after position `m` carries `k`, lookups restrict to
/// the prefix below `m`.
proof fn lemma_last_with_key_prefix(items: Seq<FileRecordView>, k: Seq<char>, m: int)
    requires
        0 <= m <= items.len(),
        forall|j: int| m <= j < items.len() ==> record_key(#[trigger] items[j]) != k,
    ensures
        last_with_key(items, k) == last_with_key(items.take(m), k),
        has_key(items, k) == has_key(items.take(m), k),
    decreases items.len() - m,
{
    if m == items.len() {
        assert(items.take(m) =~= items);
        assert(items.take(m) == items);
    } else {
        lemma_last_with_key_prefix(items, k, m + 1);
        assert(items.take(m + 1).drop_last() =~= items.take(m));
        assert(items.take(m + 1).drop_last() == items.take(m));
        assert(items.take(m + 1).last() == items[m]);
        assert(has_key(items.take(m + 1), k) == has_key(items.take(m), k)) by {
            if has_key(items.take(m + 1), k) {
                let j = choose|j: int|
                    0 <= j < items.take(m + 1).len() && record_key(
                        #[trigger] items.take(m + 1)[j],
                    ) == k;
                assert(j < m);
                assert(items.take(m)[j] == items.take(m + 1)[j]);
                assert(record_key(items.take(m)[j]) == k);
            }
            if has_key(items.take(m), k) {
                let j = choose|j: int|
                    0 <= j < items.take(m).len() && record_key(#[trigger] items.take(m)[j]) == k;
                assert(items.take(m + 1)[j] == items.take(m)[j]);
                assert(record_key(items.take(m + 1)[j]) == k);
            }
        }
    }
}

/// Computes the join key of a record.
fn record_key_exec(f: &FileInfoParser) -> (r: String)
    requires
        record_wf(f@),
    ensures
        r@ == record_key(f@),
{
    let seg = f.get_segment();
    let joined = seg.get_default_segment_string();
    proof {
        assert(joined@ == crate::paths::join_with(f@.segment->0, UNIX_SPLITTER));
    }
    lowercase(joined.as_str())
}

/// Finds the index of the last record of `items` whose key is `key`.
fn find_last_with_key(items: &Vec<FileInfoParser>, key: &String) -> (r: Option<usize>)
    requires
        records_wf(rec_views(items@)),
    ensures
        match r {
            Some(idx) => {
                &&& idx < items@.len()
                &&& has_key(rec_views(items@), key@)
                &&& items@[idx as int]@ == last_with_key(rec_views(items@), key@)
            },
            None => !has_key(rec_views(items@), key@),
        },
{
    let ghost views = rec_views(items@);
    let n = items.len();
    let mut m: usize = n;
    loop
        invariant
            views == rec_views(items@),
            n == items@.len(),
            m <= n,
            records_wf(views),
            forall|j: int| m <= j < n ==> record_key(#[trigger] views[j]) != key@,
        ensures
            m <= n,
            forall|j: int| m <= j < n ==> record_key(#[trigger] views[j]) != key@,
            m > 0 ==> record_key(views[m - 1]) == key@,
            m == 0 ==> forall|j: int| 0 <= j < n ==> record_key(#[trigger] views[j]) != key@,
        decreases m,
    {
        if m == 0 {
            break;
        }
        let f: &FileInfoParser = &items[m - 1];
        proof {
            assert(record_wf(views[m - 1]));
            assert(f@ == views[m - 1]);
        }
        let k = record_key_exec(f);
        if k.eq(key) {
            break;
        }
        proof {
            assert(record_key(views[m - 1]) != key@);
        }
        m = m - 1;
    }
    proof {
        lemma_last_with_key_prefix(views, key@, m as int);
    }
    if m > 0 {
        proof {
            assert(views.take(m as int).last() == views[m - 1]);
            assert(last_with_key(views.take(m as int), key@) == views[m - 1]);
            assert(has_key(views.take(m as int), key@));
        }
        Some(m - 1)
    } else {
        proof {
            if has_key(views, key@) {
                let j = choose|j: int|
                    0 <= j < views.len() && record_key(#[trigger] views[j]) == key@;
                assert(false);
            }
        }
        None
    }
}

/// The detector for one configuration.
pub struct ChangeDetector {
    program_options: ProgramOptions,
}

impl View for ChangeDetector {
    type V = OptionsView;

    closed spec fn view(&self) -> OptionsView {
        self.program_options@
    }
}

/// One target root together with the records walked beneath it.
pub struct TargetListing {
    pub directory: String,
    pub items: Vec<FileInfoParser>,
}

/// The mathematical view of a target listing.
#[verifier::ext_equal]
pub struct TargetListingView {
    pub directory: Seq<char>,
    pub items: Seq<FileRecordView>,
}

impl View for TargetListing {
    type V = TargetListingView;

    open spec fn view(&self) -> TargetListingView {
        TargetListingView { directory: self.directory@, items: rec_views(self.items@) }
    }
}

impl ChangeDetector {
    pub fn new(o: ProgramOptions) -> (r: ChangeDetector)
        ensures
            r@ == o@,
    {
        ChangeDetector { program_options: o }
    }

    /// Keeps the records that pass the configured extension allow-list.
    fn filter_by_extension(&self, items: &Vec<FileInfoParser>) -> (r: Vec<FileInfoParser>)
        ensures
            rec_views(r@) == ext_filter(rec_views(items@), self@.extensions),
            records_wf(rec_views(items@)) ==> records_wf(rec_views(r@)),
    {
        let ghost views = rec_views(items@);
        let ghost pred = |f: FileRecordView| spec_match_extension(f, self@.extensions);
        let mut r: Vec<FileInfoParser> = Vec::new();
        let mut i: usize = 0;
        while i < items.len()
            invariant
                views == rec_views(items@),
                i <= views.len(),
                rec_views(r@) =~= views.take(i as int).filter(pred),
                pred == (|f: FileRecordView| spec_match_extension(f, self@.extensions)),
                records_wf(views) ==> records_wf(rec_views(r@)),
            decreases views.len() - i,
        {
            let f: &FileInfoParser = &items[i];
            let ghost old_r = rec_views(r@);
            proof {
                assert(views.take(i + 1 as int).drop_last() =~= views.take(i as int));
                assert(views.take(i + 1 as int).drop_last() == views.take(i as int));
                assert(views.take(i + 1 as int).last() == views[i as int]);
                reveal_with_fuel(Seq::filter, 2);
            }
            if f.match_extension(clone_string_vec(&self.program_options.extensions)) {
                r.push(f.clone());
                proof {
                    assert(rec_views(r@) =~= old_r.push(views[i as int]));
                }
            }
            i = i + 1;
        }
        proof {
            assert(views.take(views.len() as int) =~= views);
            assert(views.take(views.len() as int) == views);
        }
        r
    }
}

/// The views of a sequence of record pairs.
pub open spec fn pair_views(items: Seq<(FileInfoParser, FileInfoParser)>) -> Seq<
    (FileRecordView, FileRecordView),
> {
    items.map_values(|p: (FileInfoParser, FileInfoParser)| (p.0@, p.1@))
}

/// Both records of every pair are usable.
pub open spec fn pairs_wf(items: Seq<(FileRecordView, FileRecordView)>) -> bool {
    forall|i: int|
        0 <= i < items.len() ==> record_wf((#[trigger] items[i]).0) && record_wf(items[i].1)
}

/// Splits the source records into those paired with a target record by key
/// and those present only on the source side.
fn check_created_updated_files(
    file_info_source: &Vec<FileInfoParser>,
    target_items: &Vec<FileInfoParser>,
    in_both: &mut Vec<(FileInfoParser, FileInfoParser)>,
    in_first_only: &mut Vec<FileInfoParser>,
)
    requires
        records_wf(rec_views(file_info_source@)),
        records_wf(rec_views(target_items@)),
    ensures
        rec_views(final(in_first_only)@) == rec_views(old(in_first_only)@) + only_in_first(
            rec_views(file_info_source@),
            rec_views(target_items@),
        ),
        pair_views(final(in_both)@) == pair_views(old(in_both)@) + pairs_of(
            rec_views(file_info_source@),
            rec_views(target_items@),
        ),
        records_wf(rec_views(old(in_first_only)@)) ==> records_wf(
            rec_views(final(in_first_only)@),
        ),
        pairs_wf(pair_views(old(in_both)@)) ==> pairs_wf(pair_views(final(in_both)@)),
{
    let ghost s_v = rec_views(file_info_source@);
    let ghost t_v = rec_views(target_items@);
    let ghost old_first = rec_views(in_first_only@);
    let ghost old_both = pair_views(in_both@);
    let ghost pred_no = |f: FileRecordView| !has_key(t_v, record_key(f));
    let ghost pred_yes = |f: FileRecordView| has_key(t_v, record_key(f));
    let ghost pairfn = |f: FileRecordView| (f, last_with_key(t_v, record_key(f)));
    let mut i: usize = 0;
    while i < file_info_source.len()
        invariant
            s_v == rec_views(file_info_source@),
            t_v == rec_views(target_items@),
            records_wf(s_v),
            records_wf(t_v),
            i <= s_v.len(),
            pred_no == (|f: FileRecordView| !has_key(t_v, record_key(f))),
            pred_yes == (|f: FileRecordView| has_key(t_v, record_key(f))),
            pairfn == (|f: FileRecordView| (f, last_with_key(t_v, record_key(f)))),
            rec_views(in_first_only@) =~= old_first + s_v.take(i as int).filter(pred_no),
            pair_views(in_both@) =~= old_both + s_v.take(i as int).filter(pred_yes).map_values(
                pairfn,
            ),
            records_wf(old_first) ==> records_wf(rec_views(in_first_only@)),
            pairs_wf(old_both) ==> pairs_wf(pair_views(in_both@)),
        decreases s_v.len() - i,
    {
        let f: &FileInfoParser = &file_info_source[i];
        proof {
            assert(record_wf(s_v[i as int]));
            assert(f@ == s_v[i as int]);
            assert(s_v.take(i + 1 as int).drop_last() =~= s_v.take(i as int));
            assert(s_v.take(i + 1 as int).drop_last() == s_v.take(i as int));
            assert(s_v.take(i + 1 as int).last() == s_v[i as int]);
            reveal_with_fuel(Seq::filter, 2);
        }
        let key = record_key_exec(f);
        let ghost prev_first = rec_views(in_first_only@);
        let ghost prev_both = pair_views(in_both@);
        match find_last_with_key(target_items, &key) {
            Some(idx) => {
                let g: &FileInfoParser = &target_items[idx];
                in_both.push((f.clone(), g.clone()));
                proof {
                    assert(pair_views(in_both@) =~= prev_both.push((s_v[i as int], g@)));
                    assert(g@ == last_with_key(t_v, record_key(s_v[i as int])));
                    assert(s_v.take(i + 1 as int).filter(pred_yes) =~= s_v.take(i as int).filter(
                        pred_yes,
                    ).push(s_v[i as int]));
                    assert(s_v.take(i + 1 as int).filter(pred_yes).map_values(pairfn) =~= s_v.take(
                        i as int,
                    ).filter(pred_yes).map_values(pairfn).push(pairfn(s_v[i as int])));
                    assert(s_v.take(i + 1 as int).filter(pred_no) =~= s_v.take(i as int).filter(
                        pred_no,
                    ));
                    assert(g@ == t_v[idx as int]);
                    assert(record_wf(t_v[idx as int]));
                }
            },
            None => {
                in_first_only.push(f.clone());
                proof {
                    assert(rec_views(in_first_only@) =~= prev_first.push(s_v[i as int]));
                    assert(s_v.take(i + 1 as int).filter(pred_no) =~= s_v.take(i as int).filter(
                        pred_no,
                    ).push(s_v[i as int]));
                    assert(s_v.take(i + 1 as int).filter(pred_yes) =~= s_v.take(i as int).filter(
                        pred_yes,
                    ));
                }
            },
        }
        i = i + 1;
    }
    proof {
        assert(s_v.take(s_v.len() as int) =~= s_v);
        assert(s_v.take(s_v.len() as int) == s_v);
        assert(rec_views(in_first_only@) == old_first + only_in_first(s_v, t_v));
        assert(pair_views(in_both@) == old_both + pairs_of(s_v, t_v));
    }
}

/// The target records whose key no source record carries: the candidates for
/// deletion.
fn check_deleted_files(
    file_info_target: &Vec<FileInfoParser>,
    source_items: &Vec<FileInfoParser>,
) -> (r: Vec<FileInfoParser>)
    requires
        records_wf(rec_views(file_info_target@)),
        records_wf(rec_views(source_items@)),
    ensures
        rec_views(r@) == only_in_first(rec_views(file_info_target@), rec_views(source_items@)),
        records_wf(rec_views(r@)),
{
    let ghost t_v = rec_views(file_info_target@);
    let ghost s_v = rec_views(source_items@);
    let ghost pred_no = |f: FileRecordView| !has_key(s_v, record_key(f));
    let mut in_second_only: Vec<FileInfoParser> = Vec::new();
    let mut i: usize = 0;
    while i < file_info_target.len()
        invariant
            t_v == rec_views(file_info_target@),
            s_v == rec_views(source_items@),
            records_wf(t_v),
            records_wf(s_v),
            i <= t_v.len(),
            pred_no == (|f: FileRecordView| !has_key(s_v, record_key(f))),
            rec_views(in_second_only@) =~= t_v.take(i as int).filter(pred_no),
            records_wf(rec_views(in_second_only@)),
        decreases t_v.len() - i,
    {
        let f: &FileInfoParser = &file_info_target[i];
        proof {
            assert(record_wf(t_v[i as int]));
            assert(f@ == t_v[i as int]);
            assert(t_v.take(i + 1 as int).drop_last() =~= t_v.take(i as int));
            assert(t_v.take(i + 1 as int).drop_last() == t_v.take(i as int));
            assert(t_v.take(i + 1 as int).last() == t_v[i as int]);
            reveal_with_fuel(Seq::filter, 2);
        }
        let key = record_key_exec(f);
        let ghost prev = rec_views(in_second_only@);
        match find_last_with_key(source_items, &key) {
            Some(_) => {
                proof {
                    assert(t_v.take(i + 1 as int).filter(pred_no) =~= t_v.take(i as int).filter(
                        pred_no,
                    ));
                }
            },
            None => {
                in_second_only.push(f.clone());
                proof {
                    assert(rec_views(in_second_only@) =~= prev.push(t_v[i as int]));
                    assert(t_v.take(i + 1 as int).filter(pred_no) =~= t_v.take(i as int).filter(
                        pred_no,
                    ).push(t_v[i as int]));
                }
            },
        }
        i = i + 1;
    }
    proof {
        assert(t_v.take(t_v.len() as int) =~= t_v);
        assert(t_v.take(t_v.len() as int) == t_v);
        assert(rec_views(in_second_only@) == only_in_first(t_v, s_v));
    }
    in_second_only
}

/// Wraps each source-only record in a create action.
fn remap_create_actions(in_first_only: Vec<FileInfoParser>) -> (r: Vec<FileInfoParserAction>)
    ensures
        act_views(r@) == rec_views(in_first_only@).map_values(
            |f: FileRecordView| create_action(f),
        ),
        records_wf(rec_views(in_first_only@)) ==> actions_wf(act_views(r@)),
{
    let ghost views = rec_views(in_first_only@);
    let mut r: Vec<FileInfoParserAction> = Vec::new();
    let mut i: usize = 0;
    while i < in_first_only.len()
        invariant
            views == rec_views(in_first_only@),
            i <= views.len(),
            act_views(r@) =~= views.take(i as int).map_values(|f: FileRecordView| create_action(f)),
            records_wf(views) ==> actions_wf(act_views(r@)),
        decreases views.len() - i,
    {
        let f: &FileInfoParser = &in_first_only[i];
        let ghost prev = act_views(r@);
        r.push(FileInfoParserAction::new_source(f.clone(), ActionType::Create));
        proof {
            assert(act_views(r@) =~= prev.push(create_action(views[i as int])));
            assert(views.take(i + 1 as int).map_values(|f: FileRecordView| create_action(f))
                =~= views.take(i as int).map_values(|f: FileRecordView| create_action(f)).push(
                create_action(views[i as int]),
            ));
            if records_wf(views) {
                assert(record_wf(views[i as int]));
            }
        }
        i = i + 1;
    }
    proof {
        assert(views.take(views.len() as int) =~= views);
        assert(views.take(views.len() as int) == views);
        assert(act_views(r@) == views.map_values(|f: FileRecordView| create_action(f)));
    }
    r
}

/// Wraps each target-only record in a delete action.
fn remap_delete_actions(in_second_only: Vec<FileInfoParser>) -> (r: Vec<FileInfoParserAction>)
    ensures
        act_views(r@) == rec_views(in_second_only@).map_values(
            |g: FileRecordView| delete_action(g),
        ),
        records_wf(rec_views(in_second_only@)) ==> actions_wf(act_views(r@)),
{
    let ghost views = rec_views(in_second_only@);
    let mut r: Vec<FileInfoParserAction> = Vec::new();
    let mut i: usize = 0;
    while i < in_second_only.len()
        invariant
            views == rec_views(in_second_only@),
            i <= views.len(),
            act_views(r@) =~= views.take(i as int).map_values(|g: FileRecordView| delete_action(g)),
            records_wf(views) ==> actions_wf(act_views(r@)),
        decreases views.len() - i,
    {
        let f: &FileInfoParser = &in_second_only[i];
        let ghost prev = act_views(r@);
        r.push(FileInfoParserAction::new_destination(f.clone(), ActionType::Delete));
        proof {
            assert(act_views(r@) =~= prev.push(delete_action(views[i as int])));
            assert(views.take(i + 1 as int).map_values(|g: FileRecordView| delete_action(g))
                =~= views.take(i as int).map_values(|g: FileRecordView| delete_action(g)).push(
                delete_action(views[i as int]),
            ));
            if records_wf(views) {
                assert(record_wf(views[i as int]));
            }
        }
        i = i + 1;
    }
    proof {
        assert(views.take(views.len() as int) =~= views);
        assert(views.take(views.len() as int) == views);
        assert(act_views(r@) == views.map_values(|g: FileRecordView| delete_action(g)));
    }
    r
}

/// Whether two optional hash strings differ.
fn hashes_differ(a: &Option<String>, b: &Option<String>) -> (r: bool)
    ensures
        r == (crate::paths::opt_str_view(*a) != crate::paths::opt_str_view(*b)),
{
    match (a, b) {
        (Some(x), Some(y)) => !x.eq(y),
        (None, None) => false,
        _ => true,
    }
}


/// The targets that survive the identical-roots check.
pub open spec fn kept_targets(o: OptionsView, targets: Seq<TargetListingView>) -> Seq<
    TargetListingView,
> {
    targets.filter(
        |t: TargetListingView|
            !spec_identical(decompose(o.source_directory), decompose(t.directory)),
    )
}

impl ChangeDetector {
    /// Flags the key-joined pairs that the configured strategies report as
    /// changed and appends an update action for each.
    fn remap_update_actions(
        &self,
        in_both: Vec<(FileInfoParser, FileInfoParser)>,
        actions: &mut Vec<FileInfoParserAction>,
    )
        ensures
            act_views(final(actions)@) == act_views(old(actions)@) + updates_from_pairs(
                self@,
                pair_views(in_both@),
            ),
            actions_wf(act_views(old(actions)@)) && pairs_wf(pair_views(in_both@)) ==> actions_wf(
                act_views(final(actions)@),
            ),
    {
        let ghost views = pair_views(in_both@);
        let ghost initial = act_views(actions@);
        let ghost pred = |p: (FileRecordView, FileRecordView)| pair_needs_update(self@, p.0, p.1);
        let ghost updfn = |p: (FileRecordView, FileRecordView)| update_action(p.0, p.1);
        let mut i: usize = 0;
        while i < in_both.len()
            invariant
                views == pair_views(in_both@),
                i <= views.len(),
                pred == (|p: (FileRecordView, FileRecordView)| pair_needs_update(
                    self@,
                    p.0,
                    p.1,
                )),
                updfn == (|p: (FileRecordView, FileRecordView)| update_action(p.0, p.1)),
                act_views(actions@) =~= initial + views.take(i as int).filter(pred).map_values(
                    updfn,
                ),
                actions_wf(initial) && pairs_wf(views) ==> actions_wf(act_views(actions@)),
            decreases views.len() - i,
        {
            let p = &in_both[i];
            let first = &p.0;
            let second = &p.1;
            proof {
                assert(views[i as int] == (first@, second@));
                crate::paths::lemma_record_public_fields(*first);
                crate::paths::lemma_record_public_fields(*second);
                assert(views.take(i + 1 as int).drop_last() =~= views.take(i as int));
                assert(views.take(i + 1 as int).drop_last() == views.take(i as int));
                assert(views.take(i + 1 as int).last() == views[i as int]);
                reveal_with_fuel(Seq::filter, 2);
            }
            let ghost prev = act_views(actions@);
            if first.is_file && second.is_file {
                let mut flagged = false;
                if self.program_options.update_compare_size {
                    flagged = flagged || first.size != second.size;
                }
                if self.program_options.update_compare_modified {
                    flagged = flagged || first.modified != second.modified;
                }
                if self.program_options.update_compare_md5 {
                    flagged = flagged || hashes_differ(&first.content_hash, &second.content_hash);
                }
                proof {
                    assert(flagged == spec_needs_update(self@, first@, second@));
                }
                if flagged {
                    actions.push(
                        FileInfoParserAction::new(first.clone(), second.clone(), ActionType::Update),
                    );
                    proof {
                        assert(act_views(actions@) =~= prev.push(update_action(first@, second@)));
                        assert(views.take(i + 1 as int).filter(pred) =~= views.take(
                            i as int,
                        ).filter(pred).push(views[i as int]));
                        assert(views.take(i + 1 as int).filter(pred).map_values(updfn)
                            =~= views.take(i as int).filter(pred).map_values(updfn).push(
                            updfn(views[i as int]),
                        ));
                        if pairs_wf(views) {
                            assert(record_wf(views[i as int].0) && record_wf(views[i as int].1));
                        }
                    }
                } else {
                    proof {
                        assert(views.take(i + 1 as int).filter(pred) =~= views.take(
                            i as int,
                        ).filter(pred));
                    }
                }
            } else {
                proof {
                    assert(!pred(views[i as int]));
                    assert(views.take(i + 1 as int).filter(pred) =~= views.take(i as int).filter(
                        pred,
                    ));
                }
            }
            i = i + 1;
        }
        proof {
            assert(views.take(views.len() as int) =~= views);
            assert(views.take(views.len() as int) == views);
        }
    }

    /// All classified actions for one already-filtered pair of snapshots:
    /// the creates, then the deletes, then the updates.
    fn enumerate_actions(
        &self,
        in_first_only: Vec<FileInfoParser>,
        in_second_only: Vec<FileInfoParser>,
        in_both: Vec<(FileInfoParser, FileInfoParser)>,
    ) -> (r: Vec<FileInfoParserAction>)
        ensures
            act_views(r@) == rec_views(in_first_only@).map_values(
                |f: FileRecordView| create_action(f),
            ) + rec_views(in_second_only@).map_values(|g: FileRecordView| delete_action(g))
                + updates_from_pairs(self@, pair_views(in_both@)),
            records_wf(rec_views(in_first_only@)) && records_wf(rec_views(in_second_only@))
                && pairs_wf(pair_views(in_both@)) ==> actions_wf(act_views(r@)),
    {
        let ghost creates_v = rec_views(in_first_only@).map_values(
            |f: FileRecordView| create_action(f),
        );
        let ghost deletes_v = rec_views(in_second_only@).map_values(
            |g: FileRecordView| delete_action(g),
        );
        let mut actions: Vec<FileInfoParserAction> = Vec::new();
        let mut first_paths = remap_create_actions(in_first_only);
        let mut second_paths = remap_delete_actions(in_second_only);
        actions.append(&mut first_paths);
        actions.append(&mut second_paths);
        proof {
            assert(act_views(actions@) =~= creates_v + deletes_v);
        }
        self.remap_update_actions(in_both, &mut actions);
        proof {
            assert(act_views(actions@) =~= creates_v + deletes_v + updates_from_pairs(
                self@,
                pair_views(in_both@),
            ));
        }
        actions
    }

    /// Drops the creates and updates whose source lies under a configured
    /// skip folder; deletes always pass, so that a path moving into a skip
    /// folder on the source side still lets its stale target sibling go.
    fn filter_skip_actions(&self, actions: Vec<FileInfoParserAction>) -> (r: Vec<
        FileInfoParserAction,
    >)
        requires
            actions_wf(act_views(actions@)),
            forall|i: int|
                0 <= i < self@.skip_folders.len() ==> decompose(
                    #[trigger] self@.skip_folders[i],
                ).len() > 0,
        ensures
            act_views(r@) == spec_filter_skip(act_views(actions@), self@.skip_folders),
            actions_wf(act_views(r@)),
    {
        let ghost skips = self@.skip_folders;
        let ghost a_views = act_views(actions@);
        let skip_strings = self.program_options.get_skip_folders();
        if skip_strings.len() == 0 {
            return actions;
        }
        let mut skip_parsers: Vec<PathParser> = Vec::new();
        let mut si: usize = 0;
        while si < skip_strings.len()
            invariant
                skip_strings@.map_values(|s: String| s@) == skips,
                forall|i: int|
                    0 <= i < skips.len() ==> decompose(#[trigger] skips[i]).len() > 0,
                si <= skip_strings@.len(),
                skip_parsers@.len() == si,
                forall|k: int|
                    0 <= k < si ==> (#[trigger] skip_parsers@[k])@ == decompose(skips[k])
                        && skip_parsers@[k].has_segment(),
            decreases skip_strings@.len() - si,
        {
            let sp = PathParser::new(&skip_strings[si]);
            proof {
                assert(skip_strings@[si as int]@ == skips[si as int]);
                assert(decompose(skips[si as int]).len() > 0);
            }
            skip_parsers.push(sp);
            si = si + 1;
        }
        let ghost pred_keep = |a: ActionView|
            a.action_type != ActionType::Delete && !spec_skipped(a, skips);
        let ghost pred_del = |a: ActionView| a.action_type == ActionType::Delete;
        let mut actions_after_skipping: Vec<FileInfoParserAction> = Vec::new();
        let mut delete_actions: Vec<FileInfoParserAction> = Vec::new();
        let mut i: usize = 0;
        while i < actions.len()
            invariant
                a_views == act_views(actions@),
                actions_wf(a_views),
                skips == self@.skip_folders,
                skips.len() > 0,
                i <= a_views.len(),
                skip_parsers@.len() == skips.len(),
                forall|k: int|
                    0 <= k < skips.len() ==> (#[trigger] skip_parsers@[k])@ == decompose(skips[k])
                        && skip_parsers@[k].has_segment(),
                pred_keep == (|a: ActionView|
                    a.action_type != ActionType::Delete && !spec_skipped(a, skips)),
                pred_del == (|a: ActionView| a.action_type == ActionType::Delete),
                act_views(actions_after_skipping@) =~= a_views.take(i as int).filter(pred_keep),
                act_views(delete_actions@) =~= a_views.take(i as int).filter(pred_del),
                actions_wf(act_views(actions_after_skipping@)),
                actions_wf(act_views(delete_actions@)),
            decreases a_views.len() - i,
        {
            let action: &FileInfoParserAction = &actions[i];
            proof {
                assert(action@ == a_views[i as int]);
                assert(action_wf(a_views[i as int]));
                assert(a_views.take(i + 1 as int).drop_last() =~= a_views.take(i as int));
                assert(a_views.take(i + 1 as int).drop_last() == a_views.take(i as int));
                assert(a_views.take(i + 1 as int).last() == a_views[i as int]);
                reveal_with_fuel(Seq::filter, 2);
            }
            if matches!(action.action_type, ActionType::Delete) {
                let ghost prev = act_views(delete_actions@);
                delete_actions.push(action.clone());
                proof {
                    assert(act_views(delete_actions@) =~= prev.push(a_views[i as int]));
                    assert(a_views.take(i + 1 as int).filter(pred_del) =~= a_views.take(
                        i as int,
                    ).filter(pred_del).push(a_views[i as int]));
                    assert(a_views.take(i + 1 as int).filter(pred_keep) =~= a_views.take(
                        i as int,
                    ).filter(pred_keep));
                }
            } else {
                let action_source = match &action.source {
                    Some(f) => f,
                    None => unreached(),
                };
                let action_segment = action_source.get_segment();
                proof {
                    assert(action_segment@ == a_views[i as int].source->0.segment->0);
                }
                let mut skipped = false;
                let mut k: usize = 0;
                while k < skip_parsers.len()
                    invariant
                        skips == self@.skip_folders,
                        skip_parsers@.len() == skips.len(),
                        forall|m: int|
                            0 <= m < skips.len() ==> (#[trigger] skip_parsers@[m])@ == decompose(
                                skips[m],
                            ) && skip_parsers@[m].has_segment(),
                        k <= skips.len(),
                        action_segment@ == a_views[i as int].source->0.segment->0,
                        skipped == (exists|m: int|
                            0 <= m < k && spec_contains_run(
                                a_views[i as int].source->0.segment->0,
                                decompose(#[trigger] skips[m]),
                            )),
                    decreases skips.len() - k,
                {
                    let skip_folder: &PathParser = &skip_parsers[k];
                    let folder_segment = skip_folder.get_segment();
                    let c = action_segment.contains_all_of_segment(&folder_segment);
                    proof {
                        assert(folder_segment@ == decompose(skips[k as int]));
                        if c {
                            assert(spec_contains_run(
                                a_views[i as int].source->0.segment->0,
                                decompose(skips[k as int]),
                            ));
                        }
                    }
                    let ghost old_skipped = skipped;
                    skipped = skipped || c;
                    proof {
                        assert(skipped == (exists|m: int|
                            0 <= m < k + 1 && spec_contains_run(
                                a_views[i as int].source->0.segment->0,
                                decompose(#[trigger] skips[m]),
                            ))) by {
                            if skipped {
                                if old_skipped {
                                    let m = choose|m: int|
                                        0 <= m < k && spec_contains_run(
                                            a_views[i as int].source->0.segment->0,
                                            decompose(#[trigger] skips[m]),
                                        );
                                    assert(0 <= m < k + 1 && spec_contains_run(
                                        a_views[i as int].source->0.segment->0,
                                        decompose(skips[m]),
                                    ));
                                } else {
                                    assert(0 <= k < k + 1 && spec_contains_run(
                                        a_views[i as int].source->0.segment->0,
                                        decompose(skips[k as int]),
                                    ));
                                }
                            }
                        }
                    }
                    k = k + 1;
                }
                proof {
                    assert(skipped == spec_skipped(a_views[i as int], skips));
                }
                if !skipped {
                    let ghost prev = act_views(actions_after_skipping@);
                    actions_after_skipping.push(action.clone());
                    proof {
                        assert(act_views(actions_after_skipping@) =~= prev.push(
                            a_views[i as int],
                        ));
                        assert(a_views.take(i + 1 as int).filter(pred_keep) =~= a_views.take(
                            i as int,
                        ).filter(pred_keep).push(a_views[i as int]));
                    }
                } else {
                    proof {
                        assert(a_views.take(i + 1 as int).filter(pred_keep) =~= a_views.take(
                            i as int,
                        ).filter(pred_keep));
                    }
                }
                proof {
                    assert(a_views.take(i + 1 as int).filter(pred_del) =~= a_views.take(
                        i as int,
                    ).filter(pred_del));
                }
            }
            i = i + 1;
        }
        proof {
            assert(a_views.take(a_views.len() as int) =~= a_views);
            assert(a_views.take(a_views.len() as int) == a_views);
        }
        let ghost kept_v = act_views(actions_after_skipping@);
        let ghost del_v = act_views(delete_actions@);
        actions_after_skipping.append(&mut delete_actions);
        proof {
            assert(act_views(actions_after_skipping@) =~= kept_v + del_v);
            assert(act_views(actions_after_skipping@) == spec_filter_skip(a_views, skips));
        }
        actions_after_skipping
    }

    /// Classifies one filtered snapshot pair into its final action sequence.
    fn merge_one_target(&self, source_items: &Vec<FileInfoParser>, target: &TargetListing) -> (r:
        Vec<FileInfoParserAction>)
        requires
            records_wf(rec_views(source_items@)),
            records_wf(target@.items),
            forall|i: int|
                0 <= i < self@.skip_folders.len() ==> decompose(
                    #[trigger] self@.skip_folders[i],
                ).len() > 0,
        ensures
            act_views(r@) == merge_pair_spec(self@, rec_views(source_items@), target@.items),
            actions_wf(act_views(r@)),
    {
        let file_info_source = self.filter_by_extension(source_items);
        let file_info_target = self.filter_by_extension(&target.items);
        let ghost sf = ext_filter(rec_views(source_items@), self@.extensions);
        let ghost tf = ext_filter(target@.items, self@.extensions);
        let mut in_both: Vec<(FileInfoParser, FileInfoParser)> = Vec::new();
        let mut in_first_only: Vec<FileInfoParser> = Vec::new();
        check_created_updated_files(
            &file_info_source,
            &file_info_target,
            &mut in_both,
            &mut in_first_only,
        );
        proof {
            assert(rec_views(in_first_only@) =~= only_in_first(sf, tf));
            assert(pair_views(in_both@) =~= pairs_of(sf, tf));
        }
        let in_second_only = check_deleted_files(&file_info_target, &file_info_source);
        let actions = self.enumerate_actions(in_first_only, in_second_only, in_both);
        proof {
            assert(act_views(actions@) == spec_enumerated(self@, sf, tf));
        }
        let actions_noskip = self.filter_skip_actions(actions);
        actions_noskip
    }

    /// Runs the three-way classification of the source snapshot against each
    /// target listing.  A target whose root is identical to the source root
    /// is a configuration error for that pair alone: it produces no list and
    /// the remaining targets are still processed.
    pub fn three_way_merge(
        &self,
        source_items: &Vec<FileInfoParser>,
        targets: &Vec<TargetListing>,
    ) -> (r: Vec<FileInfoParserActionList>)
        requires
            decompose(self@.source_directory).len() > 0,
            forall|i: int|
                0 <= i < targets@.len() ==> decompose((#[trigger] targets@[i])@.directory).len()
                    > 0,
            records_wf(rec_views(source_items@)),
            forall|i: int| 0 <= i < targets@.len() ==> records_wf((#[trigger] targets@[i])@.items),
            forall|i: int|
                0 <= i < self@.skip_folders.len() ==> decompose(
                    #[trigger] self@.skip_folders[i],
                ).len() > 0,
        ensures
            ({
                let kept = kept_targets(self@, targets@.map_values(|t: TargetListing| t@));
                &&& r@.len() == kept.len()
                &&& forall|i: int|
                    0 <= i < r@.len() ==> {
                        &&& (#[trigger] r@[i])@.source_directory == self@.source_directory
                        &&& r@[i]@.target_directory == kept[i].directory
                        &&& r@[i]@.actions == merge_pair_spec(
                            self@,
                            rec_views(source_items@),
                            kept[i].items,
                        )
                        &&& actions_wf(r@[i]@.actions)
                    }
            }),
    {
        let ghost t_views = targets@.map_values(|t: TargetListing| t@);
        let ghost pred = |t: TargetListingView|
            !spec_identical(decompose(self@.source_directory), decompose(t.directory));
        let mut results: Vec<FileInfoParserActionList> = Vec::new();
        let source_dir = self.program_options.get_source_directory();
        let mut ti: usize = 0;
        while ti < targets.len()
            invariant
                t_views == targets@.map_values(|t: TargetListing| t@),
                source_dir@ == self@.source_directory,
                decompose(self@.source_directory).len() > 0,
                forall|i: int|
                    0 <= i < targets@.len() ==> decompose(
                        (#[trigger] targets@[i])@.directory,
                    ).len() > 0,
                records_wf(rec_views(source_items@)),
                forall|i: int|
                    0 <= i < targets@.len() ==> records_wf((#[trigger] targets@[i])@.items),
                forall|i: int|
                    0 <= i < self@.skip_folders.len() ==> decompose(
                        #[trigger] self@.skip_folders[i],
                    ).len() > 0,
                ti <= t_views.len(),
                pred == (|t: TargetListingView|
                    !spec_identical(decompose(self@.source_directory), decompose(t.directory))),
                ({
                    let kept = t_views.take(ti as int).filter(pred);
                    &&& results@.len() == kept.len()
                    &&& forall|i: int|
                        0 <= i < results@.len() ==> {
                            &&& (#[trigger] results@[i])@.source_directory
                                == self@.source_directory
                            &&& results@[i]@.target_directory == kept[i].directory
                            &&& results@[i]@.actions == merge_pair_spec(
                                self@,
                                rec_views(source_items@),
                                kept[i].items,
                            )
                            &&& actions_wf(results@[i]@.actions)
                        }
                }),
            decreases t_views.len() - ti,
        {
            let target: &TargetListing = &targets[ti];
            proof {
                assert(target@ == t_views[ti as int]);
                assert(t_views.take(ti + 1 as int).drop_last() =~= t_views.take(ti as int));
                assert(t_views.take(ti + 1 as int).drop_last() == t_views.take(ti as int));
                assert(t_views.take(ti + 1 as int).last() == t_views[ti as int]);
                reveal_with_fuel(Seq::filter, 2);
            }
            let source_pp = PathParser::new(&source_dir);
            let dest_pp = PathParser::new(&target.directory);
            let same = source_pp.get_segment().identical(&dest_pp.get_segment());
            if same {
                proof {
                    assert(!pred(t_views[ti as int]));
                    assert(t_views.take(ti + 1 as int).filter(pred) =~= t_views.take(
                        ti as int,
                    ).filter(pred));
                }
            } else {
                let actions_noskip = self.merge_one_target(source_items, target);
                let ghost prev_len = results@.len();
                results.push(
                    FileInfoParserActionList {
                        actions: actions_noskip,
                        source_directory: source_dir.clone(),
                        target_directory: target.directory.clone(),
                    },
                );
                proof {
                    assert(t_views.take(ti + 1 as int).filter(pred) =~= t_views.take(
                        ti as int,
                    ).filter(pred).push(t_views[ti as int]));
                    assert(forall|i: int|
                        0 <= i < prev_len ==> results@[i] == results@.take(prev_len as int)[i]);
                }
            }
            ti = ti + 1;
        }
        proof {
            assert(t_views.take(t_views.len() as int) =~= t_views);
            assert(t_views.take(t_views.len() as int) == t_views);
        }
        results
    }

    /// The classification for every target, as `three_way_merge` computes it.
    pub fn incremental_changes(
        &self,
        source_items: &Vec<FileInfoParser>,
        targets: &Vec<TargetListing>,
    ) -> (r: Vec<FileInfoParserActionList>)
        requires
            decompose(self@.source_directory).len() > 0,
            forall|i: int|
                0 <= i < targets@.len() ==> decompose((#[trigger] targets@[i])@.directory).len()
                    > 0,
            records_wf(rec_views(source_items@)),
            forall|i: int| 0 <= i < targets@.len() ==> records_wf((#[trigger] targets@[i])@.items),
            forall|i: int|
                0 <= i < self@.skip_folders.len() ==> decompose(
                    #[trigger] self@.skip_folders[i],
                ).len() > 0,
        ensures
            ({
                let kept = kept_targets(self@, targets@.map_values(|t: TargetListing| t@));
                &&& r@.len() == kept.len()
                &&& forall|i: int|
                    0 <= i < r@.len() ==> {
                        &&& (#[trigger] r@[i])@.source_directory == self@.source_directory
                        &&& r@[i]@.target_directory == kept[i].directory
                        &&& r@[i]@.actions == merge_pair_spec(
                            self@,
                            rec_views(source_items@),
                            kept[i].items,
                        )
                        &&& actions_wf(r@[i]@.actions)
                    }
            }),
    {
        self.three_way_merge(source_items, targets)
    }

    /// Whether the run would process at least one target pair: the merge
    /// produces one action list per non-identical target, even an empty one.
    pub fn changed(
        &self,
        source_items: &Vec<FileInfoParser>,
        targets: &Vec<TargetListing>,
    ) -> (r: bool)
        requires
            decompose(self@.source_directory).len() > 0,
            forall|i: int|
                0 <= i < targets@.len() ==> decompose((#[trigger] targets@[i])@.directory).len()
                    > 0,
            records_wf(rec_views(source_items@)),
            forall|i: int| 0 <= i < targets@.len() ==> records_wf((#[trigger] targets@[i])@.items),
            forall|i: int|
                0 <= i < self@.skip_folders.len() ==> decompose(
                    #[trigger] self@.skip_folders[i],
                ).len() > 0,
        ensures
            r == (kept_targets(self@, targets@.map_values(|t: TargetListing| t@)).len() > 0),
    {
        let merge = self.three_way_merge(source_items, targets);
        merge.len() > 0
    }
}


/// The read-buffer size used when hashing a file's contents.
pub const READ5192: usize = 5192;

/// The 64-bit digest that `xxh3_64` yields for a byte sequence.  It is a
/// fixed function of the bytes alone, so it is only named here.
pub uninterp spec fn xxh3_of(bytes: Seq<u8>) -> u64;

/// Relies on `xxhash_rust::xxh3::xxh3_64`: the digest is a function of the
/// bytes alone.
#[verifier::external_body]
fn xxh3_chunk(bytes: &Vec<u8>) -> (r: u64)
    ensures
        r == xxh3_of(bytes@),
{
    xxhash_rust::xxh3::xxh3_64(bytes.as_slice())
}

/// How a file's bytes are cut for hashing: full chunks of `READ5192` bytes,
/// then the remainder, which is empty when the length is an exact multiple.
pub open spec fn spec_chunks(data: Seq<u8>) -> Seq<Seq<u8>>
    decreases data.len(),
{
    if data.len() < READ5192 as int {
        seq![data]
    } else {
        seq![data.take(READ5192 as int)] + spec_chunks(data.skip(READ5192 as int))
    }
}

/// Cuts `data` into hashing chunks.
pub fn split_into_chunks(data: &Vec<u8>) -> (r: Vec<Vec<u8>>)
    ensures
        r@.map_values(|c: Vec<u8>| c@) == spec_chunks(data@),
{
    let mut r: Vec<Vec<u8>> = Vec::new();
    let mut o: usize = 0;
    proof {
        assert(data@.skip(0int) =~= data@);
        assert(data@.skip(0int) == data@);
    }
    while data.len() - o >= READ5192
        invariant
            o <= data@.len(),
            spec_chunks(data@) == r@.map_values(|c: Vec<u8>| c@) + spec_chunks(
                data@.skip(o as int),
            ),
        decreases data@.len() - o,
    {
        let sl = vstd::slice::slice_subrange(data.as_slice(), o, o + READ5192);
        let chunk = vstd::slice::slice_to_vec(sl);
        let ghost prev = r@.map_values(|c: Vec<u8>| c@);
        proof {
            assert(chunk@ =~= data@.skip(o as int).take(READ5192 as int));
            assert(data@.skip(o as int).skip(READ5192 as int) =~= data@.skip(o + READ5192));
            assert(data@.skip(o as int).skip(READ5192 as int) == data@.skip(o + READ5192));
            assert(spec_chunks(data@.skip(o as int)) == seq![
                data@.skip(o as int).take(READ5192 as int),
            ] + spec_chunks(data@.skip(o + READ5192)));
        }
        r.push(chunk);
        proof {
            assert(r@.map_values(|c: Vec<u8>| c@) =~= prev.push(
                data@.skip(o as int).take(READ5192 as int),
            ));
            assert(prev + (seq![data@.skip(o as int).take(READ5192 as int)] + spec_chunks(
                data@.skip(o + READ5192),
            )) =~= r@.map_values(|c: Vec<u8>| c@) + spec_chunks(data@.skip(o + READ5192)));
        }
        o = o + READ5192;
    }
    let sl = vstd::slice::slice_subrange(data.as_slice(), o, data.len());
    let chunk = vstd::slice::slice_to_vec(sl);
    let ghost prev = r@.map_values(|c: Vec<u8>| c@);
    proof {
        assert(chunk@ =~= data@.skip(o as int));
        assert(chunk@ == data@.skip(o as int));
        assert(spec_chunks(data@.skip(o as int)) == seq![data@.skip(o as int)]);
    }
    r.push(chunk);
    proof {
        assert(r@.map_values(|c: Vec<u8>| c@) =~= prev.push(data@.skip(o as int)));
        assert(prev + seq![data@.skip(o as int)] =~= prev.push(data@.skip(o as int)));
        assert(r@.map_values(|c: Vec<u8>| c@) == spec_chunks(data@));
    }
    r
}

/// The comparison string of a chunk sequence: each chunk's digest rendered in
/// decimal and concatenated.
pub open spec fn spec_comparative_hash(chunks: Seq<Seq<u8>>) -> Seq<char>
    decreases chunks.len(),
{
    if chunks.len() == 0 {
        Seq::empty()
    } else {
        spec_comparative_hash(chunks.drop_last()) + crate::utilities::spec_decimal(
            xxh3_of(chunks.last()) as nat,
        )
    }
}

/// The whole-file comparison hash: the file's bytes are cut into fixed-size
/// chunks, each chunk is digested, and the decimal renderings of the digests
/// are concatenated into one opaque string.
pub fn build_file_comparative_hash(data: &Vec<u8>) -> (r: String)
    ensures
        r@ == spec_comparative_hash(spec_chunks(data@)),
{
    let chunks = split_into_chunks(data);
    let ghost cviews = chunks@.map_values(|c: Vec<u8>| c@);
    let mut out = String::new();
    let mut i: usize = 0;
    while i < chunks.len()
        invariant
            cviews == chunks@.map_values(|c: Vec<u8>| c@),
            i <= cviews.len(),
            out@ =~= spec_comparative_hash(cviews.take(i as int)),
        decreases cviews.len() - i,
    {
        let chunk: &Vec<u8> = &chunks[i];
        let digest = xxh3_chunk(chunk);
        let ds = crate::utilities::u64_to_decimal(digest);
        proof {
            assert(chunk@ == cviews[i as int]);
            assert(cviews.take(i + 1 as int).drop_last() =~= cviews.take(i as int));
            assert(cviews.take(i + 1 as int).drop_last() == cviews.take(i as int));
            assert(cviews.take(i + 1 as int).last() == cviews[i as int]);
        }
        out.append(ds.as_str());
        i = i + 1;
    }
    proof {
        assert(cviews.take(cviews.len() as int) =~= cviews);
        assert(cviews.take(cviews.len() as int) == cviews);
    }
    out
}

/// Symmetric classification: the creates of one snapshot pair and the deletes
/// of the reversed pair are built from the same records, pairwise.  Running
/// the detector with the two roots swapped maps each create to a delete of
/// the same record, and vice versa.
pub proof fn lemma_symmetric_classification(s: Seq<FileRecordView>, t: Seq<FileRecordView>)
    ensures
        spec_creates(s, t).len() == spec_deletes(s, t).len(),
        forall|i: int|
            0 <= i < spec_creates(s, t).len() ==> {
                &&& (#[trigger] spec_creates(s, t)[i]).source == spec_deletes(s, t)[i].destination
                &&& spec_creates(s, t)[i].action_type == ActionType::Create
                &&& spec_deletes(s, t)[i].action_type == ActionType::Delete
            },
{
}

/// Skip-folder exclusion: no create or update in the final action sequence
/// lies under a configured skip folder, and the deletes pass through the
/// skip filter untouched.
pub proof fn lemma_skip_folder_exclusion(
    o: OptionsView,
    s: Seq<FileRecordView>,
    t: Seq<FileRecordView>,
)
    ensures
        forall|i: int|
            0 <= i < merge_pair_spec(o, s, t).len() ==> ((#[trigger] merge_pair_spec(o, s, t)[i]).action_type
                != ActionType::Delete ==> !spec_skipped(merge_pair_spec(o, s, t)[i], o.skip_folders)),
        merge_pair_spec(o, s, t).filter(|a: ActionView| a.action_type == ActionType::Delete)
            == spec_deletes(ext_filter(t, o.extensions), ext_filter(s, o.extensions)),
{
    broadcast use vstd::seq_lib::group_filter_ensures;

    let sf = ext_filter(s, o.extensions);
    let tf = ext_filter(t, o.extensions);
    let creates = spec_creates(sf, tf);
    let deletes = spec_deletes(tf, sf);
    let updates = spec_updates(o, sf, tf);
    let enumerated = spec_enumerated(o, sf, tf);
    let pred_del = |a: ActionView| a.action_type == ActionType::Delete;
    let pred_keep = |a: ActionView|
        a.action_type != ActionType::Delete && !spec_skipped(a, o.skip_folders);
    assert(forall|i: int|
        0 <= i < creates.len() ==> (#[trigger] creates[i]).action_type == ActionType::Create);
    assert(forall|i: int|
        0 <= i < updates.len() ==> (#[trigger] updates[i]).action_type == ActionType::Update);
    assert(forall|i: int|
        0 <= i < deletes.len() ==> (#[trigger] deletes[i]).action_type == ActionType::Delete);
    crate::utilities::lemma_filter_concat(creates + deletes, updates, pred_del);
    crate::utilities::lemma_filter_concat(creates, deletes, pred_del);
    crate::utilities::lemma_filter_none(creates, pred_del);
    crate::utilities::lemma_filter_none(updates, pred_del);
    crate::utilities::lemma_filter_all(deletes, pred_del);
    assert(enumerated.filter(pred_del) =~= deletes);
    assert(enumerated.filter(pred_del) == deletes);
    if o.skip_folders.len() == 0 {
        assert(merge_pair_spec(o, s, t) == enumerated);
        assert forall|i: int|
            0 <= i < merge_pair_spec(o, s, t).len() implies ((#[trigger] merge_pair_spec(
            o,
            s,
            t,
        )[i]).action_type != ActionType::Delete ==> !spec_skipped(
            merge_pair_spec(o, s, t)[i],
            o.skip_folders,
        )) by {
            assert(!spec_skipped(merge_pair_spec(o, s, t)[i], o.skip_folders));
        }
    } else {
        let kept = enumerated.filter(pred_keep);
        let dels = enumerated.filter(pred_del);
        assert(merge_pair_spec(o, s, t) == kept + dels);
        assert forall|i: int|
            0 <= i < merge_pair_spec(o, s, t).len() implies ((#[trigger] merge_pair_spec(
            o,
            s,
            t,
        )[i]).action_type != ActionType::Delete ==> !spec_skipped(
            merge_pair_spec(o, s, t)[i],
            o.skip_folders,
        )) by {
            if i < kept.len() {
                assert(merge_pair_spec(o, s, t)[i] == kept[i]);
                assert(pred_keep(kept[i]));
            } else {
                assert(merge_pair_spec(o, s, t)[i] == dels[i - kept.len()]);
                assert(pred_del(dels[i - kept.len()]));
            }
        }
        crate::utilities::lemma_filter_concat(kept, dels, pred_del);
        assert(forall|i: int| 0 <= i < kept.len() ==> !pred_del(#[trigger] kept[i]));
        crate::utilities::lemma_filter_none(kept, pred_del);
        assert(forall|i: int| 0 <= i < dels.len() ==> pred_del(#[trigger] dels[i]));
        crate::utilities::lemma_filter_all(dels, pred_del);
        assert(merge_pair_spec(o, s, t).filter(pred_del) =~= deletes);
    }
}

/// Extension filtering: every create or update in the final action sequence
/// carries a source record that passes the extension allow-list; a directory
/// always passes, so directories are never filtered by extension.
pub proof fn lemma_extension_filtering(
    o: OptionsView,
    s: Seq<FileRecordView>,
    t: Seq<FileRecordView>,
)
    ensures
        forall|i: int|
            0 <= i < merge_pair_spec(o, s, t).len() ==> ((#[trigger] merge_pair_spec(o, s, t)[i]).action_type
                != ActionType::Delete ==> spec_match_extension(
                merge_pair_spec(o, s, t)[i].source->0,
                o.extensions,
            )),
        forall|f: FileRecordView| !f.is_file ==> spec_match_extension(f, o.extensions),
{
    broadcast use vstd::seq_lib::group_filter_ensures;

    let sf = ext_filter(s, o.extensions);
    let tf = ext_filter(t, o.extensions);
    let creates = spec_creates(sf, tf);
    let deletes = spec_deletes(tf, sf);
    let updates = spec_updates(o, sf, tf);
    let enumerated = spec_enumerated(o, sf, tf);
    let ext_pred = |f: FileRecordView| spec_match_extension(f, o.extensions);
    assert forall|i: int| 0 <= i < sf.len() implies ext_pred(#[trigger] sf[i]) by {
        assert(sf[i] == s.filter(ext_pred)[i]);
    }
    assert forall|i: int|
        0 <= i < enumerated.len() implies ((#[trigger] enumerated[i]).action_type
        != ActionType::Delete ==> spec_match_extension(enumerated[i].source->0, o.extensions)) by {
        if i < creates.len() {
            assert(enumerated[i] == creates[i]);
            let base = only_in_first(sf, tf);
            assert(creates[i] == create_action(base[i]));
            crate::utilities::lemma_filter_elements(
                sf,
                |f: FileRecordView| !has_key(tf, record_key(f)),
            );
            assert(sf.contains(base[i]));
            let j = choose|j: int| 0 <= j < sf.len() && sf[j] == base[i];
            assert(ext_pred(sf[j]));
        } else if i < creates.len() + deletes.len() {
            assert(enumerated[i] == deletes[i - creates.len()]);
        } else {
            let k = i - creates.len() - deletes.len();
            assert(enumerated[i] == updates[k]);
            let base = pairs_of(sf, tf).filter(
                |p: (FileRecordView, FileRecordView)| pair_needs_update(o, p.0, p.1),
            );
            assert(updates[k] == update_action(base[k].0, base[k].1));
            crate::utilities::lemma_filter_elements(
                pairs_of(sf, tf),
                |p: (FileRecordView, FileRecordView)| pair_needs_update(o, p.0, p.1),
            );
            assert(pairs_of(sf, tf).contains(base[k]));
            let j = choose|j: int|
                0 <= j < pairs_of(sf, tf).len() && pairs_of(sf, tf)[j] == base[k];
            let inner = sf.filter(|f: FileRecordView| has_key(tf, record_key(f)));
            assert(pairs_of(sf, tf)[j].0 == inner[j]);
            crate::utilities::lemma_filter_elements(
                sf,
                |f: FileRecordView| has_key(tf, record_key(f)),
            );
            assert(sf.contains(inner[j]));
            let m = choose|m: int| 0 <= m < sf.len() && sf[m] == inner[j];
            assert(ext_pred(sf[m]));
        }
    }
    if o.skip_folders.len() == 0 {
        assert(merge_pair_spec(o, s, t) == enumerated);
    } else {
        let pred_del = |a: ActionView| a.action_type == ActionType::Delete;
        let pred_keep = |a: ActionView|
            a.action_type != ActionType::Delete && !spec_skipped(a, o.skip_folders);
        let kept = enumerated.filter(pred_keep);
        let dels = enumerated.filter(pred_del);
        assert(merge_pair_spec(o, s, t) == kept + dels);
        assert forall|i: int|
            0 <= i < merge_pair_spec(o, s, t).len() implies ((#[trigger] merge_pair_spec(
            o,
            s,
            t,
        )[i]).action_type != ActionType::Delete ==> spec_match_extension(
            merge_pair_spec(o, s, t)[i].source->0,
            o.extensions,
        )) by {
            if i < kept.len() {
                assert(merge_pair_spec(o, s, t)[i] == kept[i]);
                crate::utilities::lemma_filter_elements(enumerated, pred_keep);
                assert(enumerated.contains(kept[i]));
                let j = choose|j: int|
                    0 <= j < enumerated.len() && enumerated[j] == kept[i];
                assert(enumerated[j].action_type != ActionType::Delete ==> spec_match_extension(
                    enumerated[j].source->0,
                    o.extensions,
                ));
            } else {
                assert(merge_pair_spec(o, s, t)[i] == dels[i - kept.len()]);
                assert(pred_del(dels[i - kept.len()]));
            }
        }
    }
}

/// Idempotence of detection on a converged pair: when every filtered source
/// record is keyed in the filtered target and vice versa, and no key-joined
/// pair is flagged by the enabled strategies, the classification is empty.
/// Executing a produced action list with deletes enabled establishes exactly
/// this state, so the next detection yields no create, update or delete.
pub proof fn lemma_converged_no_actions(
    o: OptionsView,
    s: Seq<FileRecordView>,
    t: Seq<FileRecordView>,
)
    requires
        forall|i: int|
            0 <= i < ext_filter(s, o.extensions).len() ==> has_key(
                ext_filter(t, o.extensions),
                record_key(#[trigger] ext_filter(s, o.extensions)[i]),
            ),
        forall|i: int|
            0 <= i < ext_filter(t, o.extensions).len() ==> has_key(
                ext_filter(s, o.extensions),
                record_key(#[trigger] ext_filter(t, o.extensions)[i]),
            ),
        forall|i: int|
            0 <= i < ext_filter(s, o.extensions).len() ==> !pair_needs_update(
                o,
                #[trigger] ext_filter(s, o.extensions)[i],
                last_with_key(
                    ext_filter(t, o.extensions),
                    record_key(ext_filter(s, o.extensions)[i]),
                ),
            ),
    ensures
        merge_pair_spec(o, s, t) == Seq::<ActionView>::empty(),
{
    broadcast use vstd::seq_lib::group_filter_ensures;

    let sf = ext_filter(s, o.extensions);
    let tf = ext_filter(t, o.extensions);
    let haskey_s = |f: FileRecordView| has_key(tf, record_key(f));
    let haskey_t = |g: FileRecordView| has_key(sf, record_key(g));
    crate::utilities::lemma_filter_none(sf, |f: FileRecordView| !has_key(tf, record_key(f)));
    crate::utilities::lemma_filter_none(tf, |g: FileRecordView| !has_key(sf, record_key(g)));
    assert(only_in_first(sf, tf) == Seq::<FileRecordView>::empty());
    assert(only_in_first(tf, sf) == Seq::<FileRecordView>::empty());
    assert(spec_creates(sf, tf) =~= Seq::<ActionView>::empty());
    assert(spec_deletes(tf, sf) =~= Seq::<ActionView>::empty());
    let upd_pred = |p: (FileRecordView, FileRecordView)| pair_needs_update(o, p.0, p.1);
    let pairs = pairs_of(sf, tf);
    assert forall|i: int| 0 <= i < pairs.len() implies !upd_pred(#[trigger] pairs[i]) by {
        let inner = sf.filter(haskey_s);
        assert(pairs[i] == (inner[i], last_with_key(tf, record_key(inner[i]))));
        crate::utilities::lemma_filter_elements(sf, haskey_s);
        assert(sf.contains(inner[i]));
        let j = choose|j: int| 0 <= j < sf.len() && sf[j] == inner[i];
        assert(!pair_needs_update(o, sf[j], last_with_key(tf, record_key(sf[j]))));
    }
    crate::utilities::lemma_filter_none(pairs, upd_pred);
    assert(spec_updates(o, sf, tf) =~= Seq::<ActionView>::empty());
    let enumerated = spec_enumerated(o, sf, tf);
    assert(enumerated =~= Seq::<ActionView>::empty());
    assert(enumerated == Seq::<ActionView>::empty());
    if o.skip_folders.len() == 0 {
        assert(merge_pair_spec(o, s, t) =~= Seq::<ActionView>::empty());
    } else {
        crate::utilities::lemma_filter_none(
            enumerated,
            |a: ActionView| a.action_type != ActionType::Delete && !spec_skipped(
                a,
                o.skip_folders,
            ),
        );
        crate::utilities::lemma_filter_none(
            enumerated,
            |a: ActionView| a.action_type == ActionType::Delete,
        );
        assert(merge_pair_spec(o, s, t) =~= Seq::<ActionView>::empty());
    }
}


/// After a run in which deletes were suppressed, the source side is fully
/// mirrored but stale target entries may linger: when every filtered source
/// record is keyed in the filtered target and no key-joined pair is flagged,
/// every remaining classified action is a delete.
pub proof fn lemma_stale_targets_only_deletes(
    o: OptionsView,
    s: Seq<FileRecordView>,
    t: Seq<FileRecordView>,
)
    requires
        forall|i: int|
            0 <= i < ext_filter(s, o.extensions).len() ==> has_key(
                ext_filter(t, o.extensions),
                record_key(#[trigger] ext_filter(s, o.extensions)[i]),
            ),
        forall|i: int|
            0 <= i < ext_filter(s, o.extensions).len() ==> !pair_needs_update(
                o,
                #[trigger] ext_filter(s, o.extensions)[i],
                last_with_key(
                    ext_filter(t, o.extensions),
                    record_key(ext_filter(s, o.extensions)[i]),
                ),
            ),
    ensures
        forall|i: int|
            0 <= i < merge_pair_spec(o, s, t).len() ==> (#[trigger] merge_pair_spec(
                o,
                s,
                t,
            )[i]).action_type == ActionType::Delete,
{
    broadcast use vstd::seq_lib::group_filter_ensures;

    let sf = ext_filter(s, o.extensions);
    let tf = ext_filter(t, o.extensions);
    let haskey_s = |f: FileRecordView| has_key(tf, record_key(f));
    crate::utilities::lemma_filter_none(sf, |f: FileRecordView| !has_key(tf, record_key(f)));
    assert(only_in_first(sf, tf) == Seq::<FileRecordView>::empty());
    assert(spec_creates(sf, tf) =~= Seq::<ActionView>::empty());
    let upd_pred = |p: (FileRecordView, FileRecordView)| pair_needs_update(o, p.0, p.1);
    let pairs = pairs_of(sf, tf);
    assert forall|i: int| 0 <= i < pairs.len() implies !upd_pred(#[trigger] pairs[i]) by {
        let inner = sf.filter(haskey_s);
        assert(pairs[i] == (inner[i], last_with_key(tf, record_key(inner[i]))));
        crate::utilities::lemma_filter_elements(sf, haskey_s);
        assert(sf.contains(inner[i]));
        let j = choose|j: int| 0 <= j < sf.len() && sf[j] == inner[i];
        assert(!pair_needs_update(o, sf[j], last_with_key(tf, record_key(sf[j]))));
    }
    crate::utilities::lemma_filter_none(pairs, upd_pred);
    assert(spec_updates(o, sf, tf) =~= Seq::<ActionView>::empty());
    let deletes = spec_deletes(tf, sf);
    let enumerated = spec_enumerated(o, sf, tf);
    assert(enumerated =~= deletes);
    assert(enumerated == deletes);
    assert(forall|i: int|
        0 <= i < deletes.len() ==> (#[trigger] deletes[i]).action_type == ActionType::Delete);
    if o.skip_folders.len() == 0 {
        assert(merge_pair_spec(o, s, t) == enumerated);
    } else {
        let pred_del = |a: ActionView| a.action_type == ActionType::Delete;
        let pred_keep = |a: ActionView|
            a.action_type != ActionType::Delete && !spec_skipped(a, o.skip_folders);
        assert(forall|i: int| 0 <= i < enumerated.len() ==> !pred_keep(#[trigger] enumerated[i]));
        crate::utilities::lemma_filter_none(enumerated, pred_keep);
        assert(forall|i: int| 0 <= i < enumerated.len() ==> pred_del(#[trigger] enumerated[i]));
        crate::utilities::lemma_filter_all(enumerated, pred_del);
        assert(merge_pair_spec(o, s, t) =~= deletes);
        assert(merge_pair_spec(o, s, t) == deletes);
    }
}


} // verus!
