//! Text helpers: prefixes, concatenation and membership, stated over the
//! characters of a string.

use vstd::prelude::*;

verus! {

/// The views of the elements of a sequence, in order.
pub open spec fn views<T: View>(items: Seq<T>) -> Seq<T::V> {
    Seq::new(items.len(), |i: int| items[i]@)
}

/// The view of an optional value.
pub open spec fn opt_view<T: View>(item: Option<T>) -> Option<T::V> {
    match item {
        Some(value) => Some(value@),
        None => None,
    }
}

/// The texts of `parts`, each two neighbours parted by `sep`.
pub open spec fn joined(parts: Seq<Seq<char>>, sep: Seq<char>) -> Seq<char>
    decreases parts.len(),
{
    if parts.len() == 0 {
        Seq::empty()
    } else if parts.len() == 1 {
        parts[0]
    } else {
        joined(parts.drop_last(), sep) + sep + parts.last()
    }
}

/// Appending one element appends its view.
pub proof fn lemma_views_push<T: View>(items: Seq<T>, item: T)
    ensures
        views(items.push(item)) == views(items).push(item@),
{
    assert(views(items.push(item)) =~= views(items).push(item@));
}

/// Filtering one element more.
pub proof fn lemma_filter_step<A>(items: Seq<A>, keep: spec_fn(A) -> bool, i: int)
    requires
        0 <= i < items.len(),
    ensures
        items.take(i + 1).filter(keep) == (if keep(items[i]) {
            items.take(i).filter(keep).push(items[i])
        } else {
            items.take(i).filter(keep)
        }),
{
    reveal(Seq::filter);
    assert(items.take(i + 1).drop_last() =~= items.take(i));
}

/// A filter keeps exactly the elements that it selects.
pub proof fn lemma_filter_members<A>(items: Seq<A>, keep: spec_fn(A) -> bool, item: A)
    ensures
        items.filter(keep).contains(item) <==> items.contains(item) && keep(item),
    decreases items.len(),
{
    reveal(Seq::filter);
    if items.len() > 0 {
        let front = items.drop_last();
        let kept = items.filter(keep);
        let before = front.filter(keep);
        lemma_filter_members(front, keep, item);
        if kept.contains(item) {
            let i = choose|i: int| 0 <= i < kept.len() && kept[i] == item;
            if i < before.len() {
                assert(before[i] == item);
                let k = choose|k: int| 0 <= k < front.len() && front[k] == item;
                assert(items[k] == item);
            } else {
                assert(items[items.len() - 1] == item);
            }
        }
        if items.contains(item) && keep(item) {
            let k = choose|k: int| 0 <= k < items.len() && items[k] == item;
            if k < front.len() {
                assert(front[k] == item);
                let i = choose|i: int| 0 <= i < before.len() && before[i] == item;
                assert(kept[i] == item);
            } else {
                assert(kept[kept.len() - 1] == item);
            }
        }
    }
}

fn chars_of(text: &str) -> (res: Vec<char>)
    ensures
        res@ == text@,
{
    let mut res: Vec<char> = Vec::new();
    for c in it: text.chars()
        invariant
            it.seq() == text@,
            res@ =~= it.seq().take(it.index() as int),
    {
        res.push(c);
    }
    res
}

/// Whether `text` begins with `prefix`.
pub fn starts_with(text: &str, prefix: &str) -> (res: bool)
    ensures
        res == prefix@.is_prefix_of(text@),
{
    let whole: Vec<char> = chars_of(text);
    let head: Vec<char> = chars_of(prefix);
    if head.len() > whole.len() {
        return false;
    }
    for i in 0..head.len()
        invariant
            head@ == prefix@,
            whole@ == text@,
            head.len() <= whole.len(),
            forall|j: int| 0 <= j < i ==> head@[j] == whole@[j],
    {
        if head[i] != whole[i] {
            assert(prefix@.is_prefix_of(text@) ==> prefix@[i as int] == text@[i as int]) by {
                if prefix@.is_prefix_of(text@) {
                    assert(text@.subrange(0, prefix@.len() as int)[i as int] == text@[i as int]);
                }
            }
            return false;
        }
    }
    assert(prefix@ =~= text@.subrange(0, prefix@.len() as int));
    true
}

/// Whether two strings hold the same text.
pub fn same_text(left: &String, right: &String) -> (res: bool)
    ensures
        res == (left@ == right@),
{
    left.eq(right)
}

/// Whether `text` is the text `other`.
pub fn is_text(text: &str, other: &str) -> (res: bool)
    ensures
        res == (text@ == other@),
{
    let left: Vec<char> = chars_of(text);
    let right: Vec<char> = chars_of(other);
    if left.len() != right.len() {
        return false;
    }
    for i in 0..left.len()
        invariant
            left@ == text@,
            right@ == other@,
            left.len() == right.len(),
            forall|j: int| 0 <= j < i ==> left@[j] == right@[j],
    {
        if left[i] != right[i] {
            return false;
        }
    }
    assert(text@ =~= other@);
    true
}

/// Whether `name` is one of `names`.
pub fn has_name(names: &Vec<String>, name: &String) -> (res: bool)
    ensures
        res == views(names@).contains(name@),
{
    for i in 0..names.len()
        invariant
            forall|j: int| 0 <= j < i ==> views(names@)[j] != name@,
    {
        if same_text(&names[i], name) {
            assert(views(names@)[i as int] == name@);
            return true;
        }
    }
    false
}

/// A copy of a list of strings.
pub fn copy_names(names: &Vec<String>) -> (res: Vec<String>)
    ensures
        views(res@) == views(names@),
{
    let mut res: Vec<String> = Vec::new();
    for i in 0..names.len()
        invariant
            views(res@) =~= views(names@).take(i as int),
    {
        proof {
            lemma_views_push(res@, names@[i as int]);
        }
        res.push(names[i].clone());
    }
    assert(views(names@).take(names@.len() as int) =~= views(names@));
    res
}

/// Joins `parts` into one text, each two neighbours parted by `sep`.
pub fn join(parts: &Vec<String>, sep: &str) -> (res: String)
    ensures
        res@ == joined(views(parts@), sep@),
{
    let mut res: String = String::new();
    for i in 0..parts.len()
        invariant
            res@ == joined(views(parts@).take(i as int), sep@),
    {
        let ghost before = views(parts@).take(i as int);
        let ghost now = views(parts@).take(i + 1);
        proof {
            assert(now.drop_last() =~= before);
        }
        if i > 0 {
            res.append(sep);
        }
        res.append(parts[i].as_str());
        proof {
            if i == 0 {
                assert(res@ =~= now[0]);
            }
        }
    }
    assert(views(parts@).take(parts@.len() as int) =~= views(parts@));
    res
}

/// The view of a list is the list of the views, element by element.
pub proof fn views_go_by_element<T: View>(items: Seq<T>)
    ensures
        views(items).len() == items.len(),
        forall|i: int| 0 <= i < items.len() ==> #[trigger] views(items)[i] == items[i]@,
{
}

/// The view of an optional value is there exactly if the value is, and is its view.
pub proof fn optional_views<T: View>(item: Option<T>)
    ensures
        opt_view(item) is Some <==> item is Some,
        item matches Some(value) ==> opt_view(item) == Some(value@),
{
}

/// Joining goes part by part: nothing joins to nothing, one part to itself, and
/// every further part adds the separator and its own text at the end.
pub proof fn joining_adds_at_the_end(
    parts: Seq<Seq<char>>,
    part: Seq<char>,
    sep: Seq<char>,
)
    ensures
        joined(Seq::empty(), sep).len() == 0,
        joined(seq![part], sep) == part,
        parts.len() > 0 ==> joined(parts.push(part), sep) == joined(parts, sep) + sep + part,
{
    assert(parts.push(part).drop_last() =~= parts);
}

/// A joined text begins with its first part and ends with its last one.
pub proof fn joined_text_keeps_its_ends(parts: Seq<Seq<char>>, sep: Seq<char>)
    requires
        parts.len() > 0,
    ensures
        joined(parts, sep).len() >= parts[0].len(),
        joined(parts, sep).take(parts[0].len() as int) == parts[0],
        joined(parts, sep).len() >= parts.last().len(),
        joined(parts, sep).skip(joined(parts, sep).len() - parts.last().len()) == parts.last(),
    decreases parts.len(),
{
    let whole = joined(parts, sep);
    if parts.len() == 1 {
        assert(whole.take(parts[0].len() as int) =~= parts[0]);
        assert(whole.skip(0) =~= parts[0]);
    } else {
        let front = parts.drop_last();
        joined_text_keeps_its_ends(front, sep);
        assert(front[0] == parts[0]);
        assert(whole.take(parts[0].len() as int) =~= joined(front, sep).take(
            parts[0].len() as int,
        ));
        assert(whole.skip(whole.len() - parts.last().len()) =~= parts.last());
    }
}

} // verus!
