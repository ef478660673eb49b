//! Notes: folders, entries, the editing form and the rules that turn a tag
//! text into tags and order the note list.

use vstd::prelude::*;
use crate::text::{chars_lt, chars_of, chars_less, first_index_of, join, lemma_first_index_of, lemma_first_index_of_append, trim, trim_start, trim_chars, string_from_chars, copy_range, lemma_chars_lt_asym, lemma_chars_lt_total, lemma_chars_lt_trans};
use crate::hosts_ui::{join_strings, strings_view};

verus! {

/// A folder of notes.
#[derive(Debug, Clone)]
pub struct NoteFolder {
    pub id: i64,
    pub name: String,
    pub parent_id: Option<i64>,
    pub sort_order: i32,
    pub created_at: String,
}

/// A note.
#[derive(Debug, Clone)]
pub struct NoteEntry {
    pub id: i64,
    pub title: String,
    pub content: String,
    pub folder_id: Option<i64>,
    pub is_favorite: bool,
    pub tags: Vec<String>,
    pub created_at: String,
    pub updated_at: String,
}

/// The note being edited; tags are one comma separated text.
#[derive(Debug, Clone)]
pub struct NoteForm {
    pub title: String,
    pub content: String,
    pub folder_id: Option<i64>,
    pub tags: String,
}

/// The tags of a comma separated text: the text is split at every comma,
/// each piece is trimmed, and empty pieces are dropped.
pub open spec fn tag_list(s: Seq<char>) -> Seq<Seq<char>>
    decreases s.len(),
{
    let i = first_index_of(s, ',');
    let piece = trim(s.take(i));
    let rest = if i < s.len() {
        proof {
            lemma_first_index_of(s, ',');
        }
        tag_list(s.skip(i + 1))
    } else {
        seq![]
    };
    if piece.len() > 0 {
        seq![piece] + rest
    } else {
        rest
    }
}

/// Position of the first `c` in `v[lo..]`, counted from the start of `v`.
fn find_char_from(v: &Vec<char>, lo: usize, c: char) -> (i: usize)
    requires
        lo <= v.len(),
    ensures
        i == lo + first_index_of(v@.skip(lo as int), c),
        lo <= i <= v.len(),
{
    proof {
        lemma_first_index_of(v@.skip(lo as int), c);
    }
    let mut i = lo;
    while i < v.len() && v[i] != c
        invariant
            lo <= i <= v.len(),
            first_index_of(v@.skip(lo as int), c) == (i - lo) + first_index_of(v@.skip(i as int), c),
        decreases v.len() - i,
    {
        assert(v@.skip(i as int).drop_first() =~= v@.skip(i + 1));
        i += 1;
    }
    i
}

/// The tags of a comma separated text (split at commas, trimmed, empty
/// pieces dropped).
pub fn parse_tags_from_str(text: &str) -> (r: Vec<String>)
    ensures
        strings_view(r@) == tag_list(text@),
{
    let v = chars_of(text);
    let mut out: Vec<String> = Vec::new();
    let mut lo: usize = 0;
    let mut done = false;
    assert(v@.skip(0) =~= v@);
    while !done
        invariant
            lo <= v.len(),
            done ==> strings_view(out@) == tag_list(v@),
            !done ==> strings_view(out@) + tag_list(v@.skip(lo as int)) == tag_list(v@),
        decreases v.len() - lo, if done { 0int } else { 1int },
    {
        let ghost s = v@.skip(lo as int);
        let i = find_char_from(&v, lo, ',');
        let piece = copy_range(&v, lo, i);
        assert(piece@ =~= s.take(i - lo));
        let trimmed = trim_chars(&piece);
        let ghost before = strings_view(out@);
        if trimmed.len() > 0 {
            out.push(string_from_chars(&trimmed));
            assert(strings_view(out@) =~= before.push(trimmed@));
        }
        if i < v.len() {
            assert(s.skip(i - lo + 1) =~= v@.skip(i + 1));
            proof {
                if trimmed@.len() > 0 {
                    assert(before.push(trimmed@) + tag_list(v@.skip(i + 1)) =~= before + (seq![trimmed@] + tag_list(v@.skip(i + 1))));
                }
            }
            lo = i + 1;
        } else {
            proof {
                if trimmed@.len() > 0 {
                    assert(before + tag_list(s) =~= before.push(trimmed@));
                } else {
                    assert(before + tag_list(s) =~= before);
                }
            }
            done = true;
        }
    }
    out
}

impl NoteForm {
    /// An empty form.
    pub fn empty() -> (r: Self)
        ensures
            r.title@ == Seq::<char>::empty(),
            r.content@ == Seq::<char>::empty(),
            r.folder_id is None,
            r.tags@ == Seq::<char>::empty(),
    {
        NoteForm { title: String::new(), content: String::new(), folder_id: None, tags: String::new() }
    }

    /// A form holding a note, its tags joined by `", "`.
    pub fn from_entry(entry: &NoteEntry) -> (r: Self)
        ensures
            r.title@ == entry.title@,
            r.content@ == entry.content@,
            r.folder_id == entry.folder_id,
            r.tags@ == join(strings_view(entry.tags@), ", "@),
    {
        NoteForm {
            title: entry.title.clone(),
            content: entry.content.clone(),
            folder_id: entry.folder_id,
            tags: join_strings(&entry.tags, ", "),
        }
    }

    /// The tags of the form's tag text.
    pub fn parse_tags(&self) -> (r: Vec<String>)
        ensures
            strings_view(r@) == tag_list(self.tags@),
    {
        parse_tags_from_str(self.tags.as_str())
    }
}

/// How the note list can be ordered.
#[derive(Debug, Clone, Copy, PartialEq, Eq)]
pub enum SortBy {
    CreatedAt,
    UpdatedAt,
    Title,
}

/// The label of an order.
pub open spec fn sort_by_name(s: SortBy) -> Seq<char> {
    match s {
        SortBy::CreatedAt => "创建时间"@,
        SortBy::UpdatedAt => "更新时间"@,
        SortBy::Title => "标题"@,
    }
}

impl SortBy {
    /// Every order, in the order offered to the user.
    pub fn all() -> (r: Vec<SortBy>)
        ensures
            r@ == seq![SortBy::CreatedAt, SortBy::UpdatedAt, SortBy::Title],
    {
        vec![SortBy::CreatedAt, SortBy::UpdatedAt, SortBy::Title]
    }

    /// The label of the order.
    pub fn as_str(&self) -> (r: &'static str)
        ensures
            r@ == sort_by_name(*self),
    {
        match self {
            SortBy::CreatedAt => "创建时间",
            SortBy::UpdatedAt => "更新时间",
            SortBy::Title => "标题",
        }
    }
}

/// Whether a note is edited as text or shown rendered.
#[derive(Debug, Clone, Copy, PartialEq, Eq)]
pub enum NoteViewMode {
    Edit,
    Preview,
}

/// Which notes the list shows.
#[derive(Debug, Clone, PartialEq, Eq)]
pub enum NoteQuery {
    /// The favourite notes.
    Favorites,
    /// The notes whose title, content or tags contain the text.
    Search(String),
    /// The notes of a folder, or those without one.
    Folder(Option<i64>),
}

/// The notes to list: the favourites when they are asked for, else the
/// matches of a non-empty search while searching, else the notes of the
/// selected folder.
pub fn notes_query(show_favorites: bool, show_search: bool, search_query: &str, selected_folder_id: Option<i64>) -> (r: NoteQuery)
    ensures
        show_favorites ==> r == NoteQuery::Favorites,
        !show_favorites && show_search && search_query@.len() > 0 ==> (r matches NoteQuery::Search(q) && q@ == search_query@),
        !show_favorites && !(show_search && search_query@.len() > 0) ==> r == NoteQuery::Folder(selected_folder_id),
{
    if show_favorites {
        NoteQuery::Favorites
    } else if show_search && !search_query.is_empty() {
        NoteQuery::Search(search_query.to_string())
    } else {
        NoteQuery::Folder(selected_folder_id)
    }
}

/// `e` inserted into `s` (ordered newest first) after every note whose
/// update time is not older than that of `e`.
pub open spec fn insert_newest_first(s: Seq<NoteEntry>, e: NoteEntry) -> Seq<NoteEntry>
    decreases s.len(),
{
    if s.len() == 0 {
        seq![e]
    } else if chars_lt(s.last().updated_at@, e.updated_at@) {
        insert_newest_first(s.drop_last(), e).push(s.last())
    } else {
        s.push(e)
    }
}

/// `s` ordered by update time, newest first; notes with equal update
/// times keep their order (a stable sort).
pub open spec fn newest_first(s: Seq<NoteEntry>) -> Seq<NoteEntry>
    decreases s.len(),
{
    if s.len() == 0 {
        seq![]
    } else {
        insert_newest_first(newest_first(s.drop_last()), s.last())
    }
}

/// The notes ordered by update time, newest first, keeping the order of
/// notes updated at the same time.
pub fn sort_newest_first(notes: Vec<NoteEntry>) -> (r: Vec<NoteEntry>)
    ensures
        r@ == newest_first(notes@),
{
    let ghost orig = notes@;
    let mut src = notes;
    let mut out: Vec<NoteEntry> = Vec::new();
    let mut i: usize = 0;
    let n = src.len();
    assert(orig.len() == n);
    assert(orig.skip(0) =~= orig);
    assert(orig.take(0) =~= Seq::<NoteEntry>::empty());
    while src.len() > 0
        invariant
            i + src.len() == orig.len(),
            orig.len() <= usize::MAX,
            src@ == orig.skip(i as int),
            out@ == newest_first(orig.take(i as int)),
        decreases src.len(),
    {
        let x = src.remove(0);
        let xu = chars_of(x.updated_at.as_str());
        let ghost ov = out@;
        assert(x == orig[i as int]);
        assert(src@ =~= orig.skip(i + 1));
        assert(orig.take(i + 1).drop_last() =~= orig.take(i as int));
        let mut p = out.len();
        assert(ov.take(p as int) =~= ov);
        assert(ov.skip(p as int) =~= Seq::<NoteEntry>::empty());
        while p > 0 && chars_less(&chars_of(out[p - 1].updated_at.as_str()), &xu)
            invariant
                p <= out.len(),
                ov == out@,
                xu@ == x.updated_at@,
                insert_newest_first(ov, x) == insert_newest_first(ov.take(p as int), x) + ov.skip(p as int),
            decreases p,
        {
            let ghost t = ov.take(p as int);
            assert(t.drop_last() =~= ov.take(p - 1));
            assert(t.last() == ov[p - 1]);
            assert(insert_newest_first(ov.take(p - 1), x) + ov.skip(p - 1) =~= insert_newest_first(
                ov.take(p - 1),
                x,
            ).push(ov[p - 1]) + ov.skip(p as int));
            p -= 1;
        }
        if p == 0 {
            assert(ov.take(0) =~= Seq::<NoteEntry>::empty());
        }
        assert(insert_newest_first(ov.take(p as int), x) == ov.take(p as int).push(x));
        out.insert(p, x);
        assert(out@ =~= ov.take(p as int).push(x) + ov.skip(p as int));
        i += 1;
    }
    assert(orig.take(i as int) =~= orig);
    out
}

/// Position of the first folder with id `id`, or `folders.len()`.
pub open spec fn first_folder_with(folders: Seq<NoteFolder>, id: i64) -> int
    decreases folders.len(),
{
    if folders.len() == 0 {
        0
    } else if folders[0].id == id {
        0
    } else {
        1 + first_folder_with(folders.drop_first(), id)
    }
}

/// The name shown for a note's folder: the name of the first folder with
/// that id, or "未分类" when the note has no folder or the folder is unknown.
pub open spec fn folder_display_name_v(folders: Seq<NoteFolder>, folder_id: Option<i64>) -> Seq<char> {
    match folder_id {
        Some(id) => if first_folder_with(folders, id) < folders.len() {
            folders[first_folder_with(folders, id)].name@
        } else {
            "未分类"@
        },
        None => "未分类"@,
    }
}

/// The name shown for a note's folder.
pub fn folder_display_name(folders: &Vec<NoteFolder>, folder_id: Option<i64>) -> (r: String)
    ensures
        r@ == folder_display_name_v(folders@, folder_id),
{
    match folder_id {
        Some(id) => {
            let mut k: usize = 0;
            assert(folders@.skip(0) =~= folders@);
            while k < folders.len()
                invariant
                    k <= folders.len(),
                    folder_id == Some(id),
                    first_folder_with(folders@, id) == k + first_folder_with(folders@.skip(k as int), id),
                decreases folders.len() - k,
            {
                if folders[k].id == id {
                    assert(folders@.skip(k as int)[0] == folders@[k as int]);
                    return folders[k].name.clone();
                }
                assert(folders@.skip(k as int).drop_first() =~= folders@.skip(k + 1));
                k += 1;
            }
            String::from_str("未分类")
        },
        None => String::from_str("未分类"),
    }
}

/// The error shown when a folder is saved without a name.
pub fn folder_name_error(name: &str) -> (r: Option<String>)
    ensures
        r is Some <==> name@.len() == 0,
        r matches Some(m) ==> m@ == "目录名称不能为空"@,
{
    if name.is_empty() {
        Some(String::from_str("目录名称不能为空"))
    } else {
        None
    }
}

} // verus!

verus! {

/// Splitting at a comma splits the tags: the tags of `x`, a comma and `y`
/// are the tags of `x` followed by those of `y`.
pub proof fn lemma_tag_list_comma(x: Seq<char>, y: Seq<char>)
    ensures
        tag_list(x + seq![','] + y) == tag_list(x) + tag_list(y),
    decreases x.len(),
{
    let s = x + seq![','] + y;
    let i = first_index_of(x, ',');
    lemma_first_index_of(x, ',');
    lemma_first_index_of_append(x, seq![','] + y, ',');
    assert(s =~= x + (seq![','] + y));
    if i < x.len() {
        assert(s.take(i) =~= x.take(i));
        assert(s.skip(i + 1) =~= x.skip(i + 1) + seq![','] + y);
        lemma_tag_list_comma(x.skip(i + 1), y);
        let piece = trim(x.take(i));
        if piece.len() > 0 {
            assert(tag_list(s) =~= seq![piece] + (tag_list(x.skip(i + 1)) + tag_list(y)));
        } else {
            assert(tag_list(s) =~= tag_list(x.skip(i + 1)) + tag_list(y));
        }
    } else {
        assert(first_index_of(seq![','] + y, ',') == 0);
        assert(s.take(i) =~= x);
        assert(x.take(i) =~= x);
        assert(s.skip(i + 1) =~= y);
        if trim(x).len() > 0 {
            assert(tag_list(s) =~= seq![trim(x)] + tag_list(y));
        } else {
            assert(tag_list(s) =~= tag_list(y));
        }
    }
}

/// The tags of a text without commas: the trimmed text, if it is not empty.
pub proof fn lemma_tag_list_single(t: Seq<char>)
    requires
        !t.contains(','),
    ensures
        tag_list(t) == (if trim(t).len() > 0 { seq![trim(t)] } else { Seq::<Seq<char>>::empty() }),
{
    lemma_first_index_of(t, ',');
    if first_index_of(t, ',') < t.len() {
        assert(t[first_index_of(t, ',')] == ',');
    }
    assert(t.take(t.len() as int) =~= t);
}

/// What the form writes for a list of tags is read back as the same list,
/// when each tag is non-empty, has no surrounding white space and holds no
/// comma.
pub proof fn law_tags_round_trip(tags: Seq<Seq<char>>)
    requires
        forall|i: int|
            0 <= i < tags.len() ==> (#[trigger] tags[i]).len() > 0 && trim(tags[i]) == tags[i] && !tags[i].contains(','),
    ensures
        tag_list(join(tags, ", "@)) == tags,
    decreases tags.len(),
{
    if tags.len() == 0 {
        assert(tag_list(Seq::<char>::empty()) =~= Seq::<Seq<char>>::empty()) by {
            lemma_tag_list_single(Seq::<char>::empty());
        }
    } else if tags.len() == 1 {
        lemma_tag_list_single(tags[0]);
        assert(tag_list(join(tags, ", "@)) =~= tags);
    } else {
        let init = tags.drop_last();
        let last = tags.last();
        assert forall|i: int| 0 <= i < init.len() implies (#[trigger] init[i]).len() > 0 && trim(init[i]) == init[i]
            && !init[i].contains(',') by {
            assert(init[i] == tags[i]);
        }
        law_tags_round_trip(init);
        reveal_strlit(", ");
        let rest = seq![' '] + last;
        assert(join(tags, ", "@) =~= join(init, ", "@) + seq![','] + rest);
        lemma_tag_list_comma(join(init, ", "@), rest);
        assert(!rest.contains(',')) by {
            if rest.contains(',') {
                let k = choose|k: int| 0 <= k < rest.len() && rest[k] == ',';
                assert(last[k - 1] == ',');
            }
        }
        lemma_tag_list_single(rest);
        assert(trim_start(rest) == trim_start(last)) by {
            assert(rest.drop_first() =~= last);
        }
        assert(trim(rest) == trim(last));
        assert(tags =~= init.push(last));
    }
}

/// Ordering by update time puts every note before the notes updated
/// earlier than it.
pub open spec fn ordered_newest_first(s: Seq<NoteEntry>) -> bool {
    forall|i: int, j: int|
        0 <= i < j < s.len() ==> !chars_lt(#[trigger] s[i].updated_at@, #[trigger] s[j].updated_at@)
}

/// A note not updated later than the last of a newest-first sequence is
/// updated no later than any note of it.
proof fn lemma_not_after_last(s: Seq<NoteEntry>, e: NoteEntry, i: int)
    requires
        ordered_newest_first(s),
        s.len() > 0,
        !chars_lt(s.last().updated_at@, e.updated_at@),
        0 <= i < s.len(),
    ensures
        !chars_lt(s[i].updated_at@, e.updated_at@),
{
    let a = s[i].updated_at@;
    let b = s.last().updated_at@;
    let c = e.updated_at@;
    if i < s.len() - 1 {
        assert(s[s.len() - 1] == s.last());
        assert(!chars_lt(a, b));
        if chars_lt(a, c) {
            lemma_chars_lt_total(b, c);
            if b == c {
                assert(chars_lt(a, b));
            } else {
                assert(chars_lt(c, b));
                lemma_chars_lt_trans(a, c, b);
            }
        }
    } else {
        assert(s[i] == s.last());
    }
}

/// Appending a note updated no later than the last one keeps the order.
proof fn lemma_push_newest_first(s: Seq<NoteEntry>, e: NoteEntry)
    requires
        ordered_newest_first(s),
        s.len() > 0,
        !chars_lt(s.last().updated_at@, e.updated_at@),
    ensures
        ordered_newest_first(s.push(e)),
{
    let r = s.push(e);
    assert forall|i: int, j: int| 0 <= i < j < r.len() implies !chars_lt(
        #[trigger] r[i].updated_at@,
        #[trigger] r[j].updated_at@,
    ) by {
        assert(r[i] == s[i]);
        if j == r.len() - 1 {
            assert(r[j] == e);
            lemma_not_after_last(s, e, i);
        } else {
            assert(r[j] == s[j]);
            assert(!chars_lt(s[i].updated_at@, s[j].updated_at@));
        }
    }
}

pub proof fn lemma_insert_newest_first(s: Seq<NoteEntry>, e: NoteEntry)
    requires
        ordered_newest_first(s),
    ensures
        ordered_newest_first(insert_newest_first(s, e)),
        insert_newest_first(s, e).to_multiset() == s.to_multiset().insert(e),
    decreases s.len(),
{
    broadcast use vstd::seq_lib::group_to_multiset_ensures;
    if s.len() == 0 {
        assert(insert_newest_first(s, e) =~= seq![e]);
        assert(seq![e] =~= Seq::<NoteEntry>::empty().push(e));
    } else if chars_lt(s.last().updated_at@, e.updated_at@) {
        let init = s.drop_last();
        assert forall|i: int, j: int| 0 <= i < j < init.len() implies !chars_lt(
            #[trigger] init[i].updated_at@,
            #[trigger] init[j].updated_at@,
        ) by {
            assert(init[i] == s[i] && init[j] == s[j]);
        }
        lemma_insert_newest_first(init, e);
        let t = insert_newest_first(init, e);
        let r = t.push(s.last());
        assert(s =~= init.push(s.last()));
        assert forall|i: int, j: int| 0 <= i < j < r.len() implies !chars_lt(
            #[trigger] r[i].updated_at@,
            #[trigger] r[j].updated_at@,
        ) by {
            if j == r.len() - 1 {
                assert(t.to_multiset().count(r[i]) > 0) by {
                    assert(t.contains(r[i])) by {
                        assert(t[i] == r[i]);
                    }
                }
                if r[i] == e {
                    lemma_chars_lt_asym(s.last().updated_at@, e.updated_at@);
                } else {
                    assert(init.to_multiset().count(r[i]) > 0);
                    assert(init.contains(r[i]));
                    let k = choose|k: int| 0 <= k < init.len() && init[k] == r[i];
                    assert(s[k] == r[i]);
                    assert(s[s.len() - 1] == s.last());
                }
            } else {
                assert(r[i] == t[i] && r[j] == t[j]);
            }
        }
    } else {
        lemma_push_newest_first(s, e);
    }
}

/// Ordering the notes newest first keeps every note (the result is a
/// rearrangement of the input) and leaves no note after one updated later.
pub proof fn law_newest_first_sorted_permutation(s: Seq<NoteEntry>)
    ensures
        ordered_newest_first(newest_first(s)),
        newest_first(s).to_multiset() == s.to_multiset(),
    decreases s.len(),
{
    broadcast use vstd::seq_lib::group_to_multiset_ensures;
    if s.len() == 0 {
        assert(newest_first(s) =~= Seq::<NoteEntry>::empty());
    } else {
        law_newest_first_sorted_permutation(s.drop_last());
        lemma_insert_newest_first(newest_first(s.drop_last()), s.last());
        assert(s =~= s.drop_last().push(s.last()));
    }
}

} // verus!
