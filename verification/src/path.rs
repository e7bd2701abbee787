//! File paths in normal form.
//!
//! A path in normal form has no empty component and no `.` component, and `..` stands at most
//! at the front of a relative path. It is reached by looking at the text alone: the file system
//! is not asked.

use vstd::prelude::*;

use crate::text;
use crate::text::{chars_of, split};

verus! {

/// Whether a path starts at the root.
pub open spec fn is_absolute(path: Seq<char>) -> bool {
    path.len() > 0 && path[0] == '/'
}

/// The components that are left of `pieces` once `.` and empty pieces are dropped and each `..`
/// has taken away the component before it. At the root, `..` stays at the root.
pub open spec fn resolve(pieces: Seq<Seq<char>>, absolute: bool) -> Seq<Seq<char>>
    decreases pieces.len(),
{
    if pieces.len() == 0 {
        seq![]
    } else {
        let before = resolve(pieces.drop_last(), absolute);
        let piece = pieces.last();
        if piece == ""@ || piece == "."@ {
            before
        } else if piece == ".."@ {
            if before.len() > 0 && before.last() != ".."@ {
                before.drop_last()
            } else if absolute {
                before
            } else {
                before.push(piece)
            }
        } else {
            before.push(piece)
        }
    }
}

/// Components, each with a slash before it.
pub open spec fn slashed(components: Seq<Seq<char>>) -> Seq<char>
    decreases components.len(),
{
    if components.len() == 0 {
        seq![]
    } else {
        slashed(components.drop_last()) + "/"@ + components.last()
    }
}

/// The path that is made of the given components.
pub open spec fn render(components: Seq<Seq<char>>, absolute: bool) -> Seq<char> {
    if components.len() == 0 {
        if absolute {
            "/"@
        } else {
            "."@
        }
    } else if absolute {
        slashed(components)
    } else {
        components[0] + slashed(components.skip(1))
    }
}

/// The normal form of a path.
pub open spec fn normalize_spec(path: Seq<char>) -> Seq<char> {
    render(resolve(text::split_spec(path, '/'), is_absolute(path)), is_absolute(path))
}

/// The last position before `upto` that holds `c`.
pub open spec fn rfind_char(s: Seq<char>, c: char, upto: int) -> Option<int>
    decreases upto,
{
    if upto <= 0 {
        None
    } else if s[upto - 1] == c {
        Some(upto - 1)
    } else {
        rfind_char(s, c, upto - 1)
    }
}

/// The part of a file name after its last dot. A name without a dot has none, nor has one whose
/// only dot is its first character, nor `..`.
pub open spec fn name_extension(name: Seq<char>) -> Option<Seq<char>> {
    match rfind_char(name, '.', name.len() as int) {
        None => None,
        Some(i) => if i == 0 || name == ".."@ {
            None
        } else {
            Some(name.skip(i + 1))
        },
    }
}

/// The extension of the last component of a path.
pub open spec fn extension_spec(path: Seq<char>) -> Option<Seq<char>> {
    name_extension(text::split_spec(path, '/').last())
}

/// The path of what `path` names, seen from the directory `base`.
pub open spec fn join_spec(base: Seq<char>, path: Seq<char>) -> Seq<char> {
    normalize_spec(base + "/"@ + path)
}

/// Resolves `.` and `..` among the pieces of a path.
fn resolve_pieces(pieces: Vec<String>, absolute: bool) -> (components: Vec<String>)
    ensures
        text::texts(components@) == resolve(text::texts(pieces@), absolute),
{
    let empty = "".to_owned();
    let dot = ".".to_owned();
    let dot_dot = "..".to_owned();
    let ghost all = text::texts(pieces@);
    let mut components: Vec<String> = Vec::new();
    let mut i: usize = 0;
    assert(all.take(0) =~= seq![]);
    assert(text::texts(components@) =~= seq![]);
    while i < pieces.len()
        invariant
            i <= pieces.len(),
            all == text::texts(pieces@),
            empty@ == ""@,
            dot@ == "."@,
            dot_dot@ == ".."@,
            text::texts(components@) == resolve(all.take(i as int), absolute),
        decreases pieces.len() - i,
    {
        let ghost before = text::texts(components@);
        assert(all.take(i + 1).drop_last() =~= all.take(i as int));
        assert(all.take(i + 1).last() == pieces[i as int]@);
        let piece = &pieces[i];
        if *piece == empty || *piece == dot {
        } else if *piece == dot_dot {
            if components.len() > 0 && components[components.len() - 1] != dot_dot {
                components.pop();
                assert(text::texts(components@) =~= before.drop_last());
            } else if !absolute {
                components.push(dot_dot.clone());
                assert(text::texts(components@) =~= before.push(dot_dot@));
            }
        } else {
            components.push(piece.clone());
            assert(text::texts(components@) =~= before.push(piece@));
        }
        i = i + 1;
    }
    assert(all.take(pieces.len() as int) =~= all);
    components
}

/// Brings a path to its normal form.
pub fn normalize(path: &str) -> (normal: String)
    ensures
        normal@ == normalize_spec(path@),
{
    let chars = chars_of(path);
    let absolute = chars.len() > 0 && chars[0] == '/';
    let components = resolve_pieces(split(path, '/'), absolute);
    let ghost all = text::texts(components@);
    if components.len() == 0 {
        return if absolute { "/".to_owned() } else { ".".to_owned() };
    }
    let first: usize = if absolute { 0 } else { 1 };
    let mut normal: String = if absolute { String::new() } else { components[0].clone() };
    let ghost head = normal@;
    let ghost tail = all.skip(first as int);
    let mut i: usize = first;
    assert(tail.take(0) =~= seq![]);
    assert(normal@ =~= head + slashed(tail.take(0)));
    while i < components.len()
        invariant
            first <= i <= components.len(),
            all == text::texts(components@),
            tail == all.skip(first as int),
            normal@ == head + slashed(tail.take(i - first)),
        decreases components.len() - i,
    {
        assert(tail.take(i - first + 1).drop_last() =~= tail.take(i - first));
        assert(tail.take(i - first + 1).last() == components[i as int]@);
        let ghost so_far = slashed(tail.take(i - first));
        normal.append("/");
        normal.append(components[i].as_str());
        assert(normal@ =~= head + (so_far + "/"@ + components[i as int]@));
        i = i + 1;
    }
    assert(tail.take(components.len() - first) =~= tail);
    assert(absolute ==> tail =~= all);
    assert(absolute ==> normal@ =~= slashed(all));
    normal
}

/// The path of what `path` names, seen from the directory `base`.
pub fn join(base: &str, path: &str) -> (joined: String)
    ensures
        joined@ == join_spec(base@, path@),
{
    let mut whole: String = base.to_owned();
    whole.append("/");
    whole.append(path);
    normalize(whole.as_str())
}

/// The normal form of an absolute path is absolute.
pub proof fn lemma_absolute_stays_absolute(path: Seq<char>)
    requires
        is_absolute(path),
    ensures
        is_absolute(normalize_spec(path)),
{
    reveal_strlit("/");
    let components = resolve(text::split_spec(path, '/'), true);
    lemma_slashed_starts_with_slash(components);
}

proof fn lemma_slashed_starts_with_slash(components: Seq<Seq<char>>)
    ensures
        components.len() > 0 ==> is_absolute(slashed(components)),
    decreases components.len(),
{
    reveal_strlit("/");
    if components.len() > 0 {
        lemma_slashed_starts_with_slash(components.drop_last());
        let front = slashed(components.drop_last());
        let whole = front + "/"@ + components.last();
        assert(whole == slashed(components));
        if components.len() == 1 {
            assert(front.len() == 0);
            assert(whole[0] == "/"@[0]);
        } else {
            assert(whole[0] == front[0]);
        }
    }
}

/// A text has at least one piece.
proof fn lemma_split_nonempty(s: Seq<char>, sep: char)
    ensures
        text::split_spec(s, sep).len() > 0,
{
}

/// The extension of the file that a path names.
pub fn extension(path: &str) -> (ext: Option<String>)
    ensures
        match ext {
            Some(e) => extension_spec(path@) == Some(e@),
            None => extension_spec(path@) is None,
        },
{
    let pieces = split(path, '/');
    proof {
        lemma_split_nonempty(path@, '/');
        assert(text::texts(pieces@).len() == pieces@.len());
    }
    let name = &pieces[pieces.len() - 1];
    assert(name@ == text::split_spec(path@, '/').last());
    let chars = chars_of(name.as_str());
    let mut i: usize = chars.len();
    while i > 0 && chars[i - 1] != '.'
        invariant
            i <= chars.len(),
            chars@ == name@,
            rfind_char(name@, '.', name@.len() as int) == rfind_char(name@, '.', i as int),
        decreases i,
    {
        i = i - 1;
    }
    if i <= 1 || *name == "..".to_owned() {
        None
    } else {
        let e = name.as_str().substring_char(i, chars.len()).to_owned();
        assert(e@ =~= name@.skip(i as int));
        Some(e)
    }
}

/// Whether components are those of a path in normal form: none is empty or `.` or holds a slash,
/// and `..` stands only at the front of a relative path.
pub open spec fn are_normal(components: Seq<Seq<char>>, absolute: bool) -> bool {
    &&& forall|i: int|
        0 <= i < components.len() ==> {
            let c = #[trigger] components[i];
            c != ""@ && c != "."@ && !c.contains('/')
        }
    &&& forall|i: int|
        0 <= i < components.len() && #[trigger] components[i] == ".."@ ==> !absolute
    &&& forall|i: int, j: int|
        0 <= i < j < components.len() && #[trigger] components[j] == ".."@
            ==> #[trigger] components[i] == ".."@
}

/// What is left of a path once it is resolved is in normal form.
pub proof fn law_resolved_is_normal(path: Seq<char>)
    ensures
        are_normal(resolve(text::split_spec(path, '/'), is_absolute(path)), is_absolute(path)),
{
    text::lemma_pieces_hold_no_separator(path, '/', 0);
    lemma_resolved_is_normal(text::split_spec(path, '/'), is_absolute(path));
}

proof fn lemma_resolved_is_normal(pieces: Seq<Seq<char>>, absolute: bool)
    requires
        forall|i: int| 0 <= i < pieces.len() ==> !(#[trigger] pieces[i]).contains('/'),
    ensures
        are_normal(resolve(pieces, absolute), absolute),
    decreases pieces.len(),
{
    if pieces.len() > 0 {
        assert forall|i: int| 0 <= i < pieces.drop_last().len() implies !(
        #[trigger] pieces.drop_last()[i]).contains('/') by {
            assert(pieces.drop_last()[i] == pieces[i]);
        }
        lemma_resolved_is_normal(pieces.drop_last(), absolute);
        assert(pieces.last() == pieces[pieces.len() - 1]);
        assert(".."@ != ""@ && ".."@ != "."@) by {
            reveal_strlit("..");
            reveal_strlit(".");
            reveal_strlit("");
            assert(".."@.len() == 2 && "."@.len() == 1 && ""@.len() == 0);
        }
    }
}

/// Components in normal form resolve to themselves.
proof fn lemma_normal_resolves_to_itself(components: Seq<Seq<char>>, absolute: bool)
    requires
        are_normal(components, absolute),
    ensures
        resolve(components, absolute) == components,
    decreases components.len(),
{
    if components.len() > 0 {
        let front = components.drop_last();
        assert forall|i: int| 0 <= i < front.len() implies #[trigger] front[i] == components[i] by {
        }
        assert(are_normal(front, absolute));
        lemma_normal_resolves_to_itself(front, absolute);
        assert(components.last() == components[components.len() - 1]);
        assert(front.push(components.last()) =~= components);
        if front.len() > 0 {
            assert(front.last() == components[components.len() - 2]);
        }
    } else {
        assert(components =~= seq![]);
    }
}

/// The pieces of a text that slashed components follow.
proof fn lemma_split_slashed(head: Seq<char>, components: Seq<Seq<char>>)
    requires
        forall|i: int| 0 <= i < components.len() ==> !(#[trigger] components[i]).contains('/'),
    ensures
        text::split_spec(head + slashed(components), '/') == text::split_spec(head, '/')
            + components,
    decreases components.len(),
{
    if components.len() == 0 {
        assert(head + slashed(components) =~= head);
        assert(text::split_spec(head, '/') + components =~= text::split_spec(head, '/'));
    } else {
        let front = components.drop_last();
        assert forall|i: int| 0 <= i < front.len() implies !(#[trigger] front[i]).contains('/') by {
            assert(front[i] == components[i]);
        }
        lemma_split_slashed(head, front);
        let last = components.last();
        assert(last == components[components.len() - 1]);
        let text = head + slashed(front);
        text::lemma_split_append(text, '/', last, 0);
        reveal_strlit("/");
        assert(head + slashed(components) =~= text.push('/') + last);
        assert(text::split_spec(head, '/') + components =~= (text::split_spec(head, '/')
            + front).push(last));
    }
}

/// A path in normal form stays as it is.
pub proof fn law_normalize_is_idempotent(path: Seq<char>)
    ensures
        normalize_spec(normalize_spec(path)) == normalize_spec(path),
{
    lemma_normal_form_resolves_alike(path);
}

/// The normal form of a path has the same components, and starts at the root if the path does.
proof fn lemma_normal_form_resolves_alike(path: Seq<char>)
    ensures
        is_absolute(normalize_spec(path)) == is_absolute(path),
        resolve(text::split_spec(normalize_spec(path), '/'), is_absolute(path)) == resolve(
            text::split_spec(path, '/'),
            is_absolute(path),
        ),
{
    let absolute = is_absolute(path);
    let components = resolve(text::split_spec(path, '/'), absolute);
    let normal = normalize_spec(path);
    law_resolved_is_normal(path);
    reveal_strlit("/");
    reveal_strlit(".");
    reveal_strlit("");
    if absolute {
        lemma_absolute_stays_absolute(path);
        let empty = Seq::<char>::empty();
        if components.len() == 0 {
            text::lemma_split_append(empty, '/', empty, 0);
            assert(normal =~= empty.push('/') + empty);
        } else {
            lemma_split_slashed(empty, components);
            assert(normal =~= empty + slashed(components));
        }
        let pieces = text::split_spec(normal, '/');
        text::lemma_split_single(empty, '/');
        if components.len() == 0 {
            assert(pieces =~= seq![empty, empty]);
            assert(pieces =~= seq![empty] + seq![empty]);
            lemma_resolve_leading_empty(seq![empty], true);
            lemma_resolve_leading_empty(seq![], true);
            assert(seq![empty] + seq![] =~= seq![empty]);
        } else {
            lemma_resolve_leading_empty(components, true);
        }
        lemma_normal_resolves_to_itself(components, true);
        assert(resolve(pieces, true) == components);
    } else if components.len() == 0 {
        assert(normal == "."@);
        text::lemma_split_single(normal, '/');
        let pieces = seq!["."@];
        assert(pieces.drop_last().len() == 0);
        assert(resolve(pieces.drop_last(), false).len() == 0);
        assert(resolve(pieces, false).len() == 0);
    } else {
        let first = components[0];
        let rest = components.skip(1);
        assert forall|i: int| 0 <= i < rest.len() implies !(#[trigger] rest[i]).contains('/') by {
            assert(rest[i] == components[i + 1]);
        }
        lemma_split_slashed(first, rest);
        text::lemma_split_single(first, '/');
        assert(seq![first] + rest =~= components);
        assert(first.len() > 0) by {
            assert(first.len() == 0 ==> first =~= ""@);
        }
        assert(normal[0] == first[0]);
        assert(first.contains(first[0]));
        assert(!is_absolute(normal));
        lemma_normal_resolves_to_itself(components, false);
    }
}

/// An empty piece at the front of others changes nothing.
proof fn lemma_resolve_leading_empty(pieces: Seq<Seq<char>>, absolute: bool)
    ensures
        resolve(seq![Seq::<char>::empty()] + pieces, absolute) == resolve(pieces, absolute),
    decreases pieces.len(),
{
    reveal_strlit("");
    let empty = Seq::<char>::empty();
    assert(empty =~= ""@);
    let all = seq![empty] + pieces;
    if pieces.len() == 0 {
        assert(all.drop_last() =~= seq![]);
        assert(resolve(all.drop_last(), absolute) =~= seq![]);
    } else {
        assert(all.drop_last() =~= seq![empty] + pieces.drop_last());
        lemma_resolve_leading_empty(pieces.drop_last(), absolute);
    }
}

/// Whether a text is the name of a file or a directory: it is not empty, holds no slash, and is
/// neither `.` nor `..`.
pub open spec fn is_name(c: Seq<char>) -> bool {
    &&& c.len() > 0
    &&& !c.contains('/')
    &&& c != seq!['.']
    &&& c != seq!['.', '.']
}

/// What the short texts of this module hold.
proof fn lemma_marks()
    ensures
        ""@ == Seq::<char>::empty(),
        "/"@ == seq!['/'],
        "."@ == seq!['.'],
        ".."@ == seq!['.', '.'],
{
    reveal_strlit("");
    reveal_strlit("/");
    reveal_strlit(".");
    reveal_strlit("..");
    assert(""@ =~= Seq::<char>::empty());
    assert("/"@ =~= seq!['/']);
    assert("."@ =~= seq!['.']);
    assert(".."@ =~= seq!['.', '.']);
}

/// One more component at the end of a path is one more piece.
proof fn lemma_append_component(a: Seq<char>, c: Seq<char>)
    requires
        !c.contains('/'),
    ensures
        text::split_spec(a + "/"@ + c, '/') == text::split_spec(a, '/').push(c),
        a.len() > 0 ==> is_absolute(a + "/"@ + c) == is_absolute(a),
        a.len() == 0 ==> is_absolute(a + "/"@ + c),
        text::split_spec(a, '/').push(c).drop_last() == text::split_spec(a, '/'),
{
    lemma_marks();
    text::lemma_split_append(a, '/', c, 0);
    assert(a + "/"@ + c =~= a.push('/') + c);
    assert(text::split_spec(a, '/').push(c).drop_last() =~= text::split_spec(a, '/'));
}

/// One more component makes a path longer by a slash and that component.
proof fn lemma_render_push(components: Seq<Seq<char>>, c: Seq<char>, absolute: bool)
    requires
        components.len() > 0,
    ensures
        render(components.push(c), absolute) == render(components, absolute) + "/"@ + c,
{
    if absolute {
        assert(components.push(c).drop_last() =~= components);
    } else {
        let rest = components.skip(1);
        assert(components.push(c).skip(1) =~= rest.push(c));
        assert(rest.push(c).drop_last() =~= rest);
        assert(components[0] + (slashed(rest) + "/"@ + c) =~= components[0] + slashed(rest) + "/"@
            + c);
    }
}

/// A path of one component.
proof fn lemma_render_one(c: Seq<char>)
    ensures
        render(seq![c], true) == "/"@ + c,
        render(seq![c], false) == c,
{
    assert(seq![c].drop_last() =~= seq![]);
    assert(slashed(seq![c].drop_last()) =~= seq![]);
    assert(slashed(seq![c]) =~= "/"@ + c);
    assert(seq![c].skip(1) =~= seq![]);
    assert(c + slashed(seq![c].skip(1)) =~= c);
}

/// The pieces of a path in normal form are its components.
proof fn lemma_split_render(components: Seq<Seq<char>>, absolute: bool)
    requires
        are_normal(components, absolute),
        components.len() > 0,
    ensures
        text::split_spec(render(components, absolute), '/') == (if absolute {
            seq![Seq::<char>::empty()] + components
        } else {
            components
        }),
        render(components, absolute) != "/"@,
        render(components, absolute) != "."@,
{
    lemma_marks();
    let empty = Seq::<char>::empty();
    let normal = render(components, absolute);
    text::lemma_split_single(empty, '/');
    if absolute {
        lemma_split_slashed(empty, components);
        assert(normal =~= empty + slashed(components));
    } else {
        let first = components[0];
        let rest = components.skip(1);
        assert forall|i: int| 0 <= i < rest.len() implies !(#[trigger] rest[i]).contains('/') by {
            assert(rest[i] == components[i + 1]);
        }
        lemma_split_slashed(first, rest);
        text::lemma_split_single(first, '/');
        assert(seq![first] + rest =~= components);
    }
    let pieces = text::split_spec(normal, '/');
    assert(components.last() == components[components.len() - 1]);
    assert(pieces.last() == components.last());
    if normal == "/"@ {
        text::lemma_split_append(empty, '/', empty, 0);
        assert("/"@ =~= empty.push('/') + empty);
        assert(pieces.last() == empty);
    }
    if normal == "."@ {
        assert(!"."@.contains('/'));
        text::lemma_split_single("."@, '/');
        assert(pieces.last() == "."@);
    }
}

/// The normal form of a path tells its components.
proof fn lemma_components_of(path: Seq<char>)
    ensures
        ({
            let absolute = is_absolute(path);
            let components = resolve(text::split_spec(path, '/'), absolute);
            let normal = normalize_spec(path);
            &&& are_normal(components, absolute)
            &&& normal == render(components, absolute)
            &&& (normal == "/"@) == (absolute && components.len() == 0)
            &&& (normal == "."@) == (!absolute && components.len() == 0)
            &&& components.len() > 0 ==> text::split_spec(normal, '/').last() == components.last()
        }),
{
    lemma_marks();
    law_resolved_is_normal(path);
    let absolute = is_absolute(path);
    let components = resolve(text::split_spec(path, '/'), absolute);
    if components.len() > 0 {
        lemma_split_render(components, absolute);
    } else {
        assert(seq!['/'][0] != seq!['.'][0]);
    }
}

/// A single component is its own normal form, unless it says nothing: what is empty or `.` is the
/// directory itself.
pub proof fn law_normal_form_of_one_component(c: Seq<char>)
    requires
        !c.contains('/'),
    ensures
        c.len() == 0 || c == seq!['.'] ==> normalize_spec(c) == seq!['.'],
        c.len() > 0 && c != seq!['.'] ==> normalize_spec(c) == c,
        c.len() == 0 || c == seq!['.'] || c == seq!['.', '.'] ==> normalize_spec(seq!['/'] + c)
            == seq!['/'],
        is_name(c) ==> normalize_spec(seq!['/'] + c) == seq!['/'] + c,
{
    lemma_marks();
    let empty = Seq::<char>::empty();
    text::lemma_split_single(c, '/');
    text::lemma_split_single(empty, '/');
    lemma_append_component(empty, c);
    assert(empty + "/"@ + c =~= seq!['/'] + c);
    assert(c.len() > 0 ==> c.contains(c[0]));
    assert(!is_absolute(c));
    assert(c.len() == 0 ==> c =~= empty);
    let none = Seq::<Seq<char>>::empty();
    assert(seq![c].drop_last() =~= none);
    assert(resolve(none, false) =~= none);
    assert(resolve(none, true) =~= none);
    assert(seq![empty].drop_last() =~= none);
    assert(resolve(seq![empty], true) =~= none);
    assert(seq![empty].push(c).drop_last() =~= seq![empty]);
    assert(none.push(c) =~= seq![c]);
    lemma_render_one(c);
}

/// An empty component and `.` change nothing.
pub proof fn law_empty_components_are_dropped(a: Seq<char>)
    requires
        a.len() > 0,
    ensures
        normalize_spec(a + seq!['/']) == normalize_spec(a),
        normalize_spec(a + seq!['/', '.']) == normalize_spec(a),
{
    lemma_marks();
    lemma_append_component(a, ""@);
    lemma_append_component(a, "."@);
    assert(a + "/"@ + ""@ =~= a + seq!['/']);
    assert(a + "/"@ + "."@ =~= a + seq!['/', '.']);
}

/// A name at the end of a path stands at the end of its normal form, behind the normal form of
/// what is before it.
pub proof fn law_names_are_appended(a: Seq<char>, c: Seq<char>)
    requires
        a.len() > 0,
        is_name(c),
    ensures
        normalize_spec(a + seq!['/'] + c) == (if normalize_spec(a) == seq!['/'] {
            seq!['/'] + c
        } else if normalize_spec(a) == seq!['.'] {
            c
        } else {
            normalize_spec(a) + seq!['/'] + c
        }),
{
    lemma_marks();
    lemma_append_component(a, c);
    lemma_components_of(a);
    let absolute = is_absolute(a);
    let components = resolve(text::split_spec(a, '/'), absolute);
    if components.len() == 0 {
        assert(components.push(c) =~= seq![c]);
        lemma_render_one(c);
    } else {
        lemma_render_push(components, c, absolute);
    }
}

/// `..` takes away the name before it.
pub proof fn law_parent_takes_the_name_away(a: Seq<char>, c: Seq<char>)
    requires
        is_name(c),
    ensures
        a.len() > 0 ==> normalize_spec(a + seq!['/'] + c + seq!['/', '.', '.']) == normalize_spec(
            a,
        ),
        normalize_spec(c + seq!['/', '.', '.']) == seq!['.'],
        normalize_spec(seq!['/'] + c + seq!['/', '.', '.']) == seq!['/'],
{
    lemma_marks();
    let empty = Seq::<char>::empty();
    let below = a + "/"@ + c;
    lemma_append_component(a, c);
    lemma_append_component(below, ".."@);
    assert(below + "/"@ + ".."@ =~= a + seq!['/'] + c + seq!['/', '.', '.']);
    let components = resolve(text::split_spec(a, '/'), is_absolute(a));
    assert(components.push(c).drop_last() =~= components);
    assert(resolve(text::split_spec(below, '/'), is_absolute(a)) == components.push(c));
    let none = Seq::<Seq<char>>::empty();
    assert(none.push(c).drop_last() =~= none);
    // A name alone.
    text::lemma_split_single(c, '/');
    assert(c.contains(c[0]));
    assert(!is_absolute(c));
    assert(seq![c].drop_last() =~= none);
    assert(resolve(none, false) =~= none);
    assert(resolve(seq![c], false) == none.push(c));
    lemma_append_component(c, ".."@);
    assert(c + "/"@ + ".."@ =~= c + seq!['/', '.', '.']);
    // A name at the root.
    let top = empty + "/"@ + c;
    text::lemma_split_single(empty, '/');
    assert(seq![empty].drop_last() =~= none);
    assert(resolve(none, true) =~= none);
    assert(resolve(seq![empty], true) =~= none);
    lemma_append_component(empty, c);
    assert(resolve(seq![empty].push(c), true) == none.push(c));
    lemma_append_component(top, ".."@);
    assert(top + "/"@ + ".."@ =~= seq!['/'] + c + seq!['/', '.', '.']);
}

/// Where there is no name to take away, `..` stays at the root, and is kept in a relative path.
pub proof fn law_parent_without_a_name(a: Seq<char>, before: Seq<char>)
    requires
        a.len() > 0,
    ensures
        normalize_spec(a) == seq!['/'] ==> normalize_spec(a + seq!['/', '.', '.']) == seq!['/'],
        normalize_spec(a) == seq!['.'] ==> normalize_spec(a + seq!['/', '.', '.']) == seq!['.', '.'],
        normalize_spec(a) == seq!['.', '.'] || normalize_spec(a) == before + seq!['/', '.', '.']
            ==> normalize_spec(a + seq!['/', '.', '.']) == normalize_spec(a) + seq!['/', '.', '.'],
{
    lemma_marks();
    lemma_append_component(a, ".."@);
    lemma_components_of(a);
    assert(a + "/"@ + ".."@ =~= a + seq!['/', '.', '.']);
    let absolute = is_absolute(a);
    let normal = normalize_spec(a);
    let components = resolve(text::split_spec(a, '/'), absolute);
    let none = Seq::<Seq<char>>::empty();
    if components.len() == 0 {
        assert(components =~= none);
        assert(components.push(".."@) =~= seq![".."@]);
        lemma_render_one(".."@);
    } else {
        assert(components.last() == components[components.len() - 1]);
        lemma_render_push(components, ".."@, absolute);
        assert(normal + "/"@ + ".."@ =~= normal + seq!['/', '.', '.']);
    }
    if normal == seq!['.', '.'] {
        assert(!".."@.contains('/'));
        text::lemma_split_single(".."@, '/');
        assert(components.len() > 0) by {
            assert(seq!['.', '.'].len() == 2 && "."@.len() == 1 && "/"@.len() == 1);
        }
        assert(components.last() == ".."@);
    } else if normal == before + seq!['/', '.', '.'] {
        lemma_append_component(before, ".."@);
        assert(before + "/"@ + ".."@ =~= before + seq!['/', '.', '.']);
        assert(normal.len() >= 3 && "."@.len() == 1 && "/"@.len() == 1);
        assert(components.len() > 0);
        assert(components.last() == ".."@);
    }
}

/// What a path leads to depends on the normal form of its front alone.
pub proof fn law_normal_form_of_the_front(a: Seq<char>, c: Seq<char>)
    requires
        a.len() > 0,
        !c.contains('/'),
    ensures
        normalize_spec(normalize_spec(a) + seq!['/'] + c) == normalize_spec(a + seq!['/'] + c),
{
    lemma_marks();
    lemma_normal_form_resolves_alike(a);
    lemma_components_of(a);
    lemma_append_component(a, c);
    lemma_append_component(normalize_spec(a), c);
    let absolute = is_absolute(a);
    let components = resolve(text::split_spec(a, '/'), absolute);
    assert(normalize_spec(a).len() > 0) by {
        if components.len() > 0 {
            lemma_split_render(components, absolute);
            if normalize_spec(a).len() == 0 {
                assert(normalize_spec(a) =~= Seq::<char>::empty());
                text::lemma_split_single(normalize_spec(a), '/');
                assert(components.last() == components[components.len() - 1]);
            }
        }
    }
}

/// A path is looked up from a directory by way of the two of them, with a slash between.
pub proof fn law_joined_by_a_slash(base: Seq<char>, path: Seq<char>)
    ensures
        join_spec(base, path) == normalize_spec(base + seq!['/'] + path),
{
    lemma_marks();
}

/// Names are added to what stands before them.
proof fn lemma_resolve_names(
    pieces: Seq<Seq<char>>,
    names: Seq<Seq<char>>,
    absolute: bool,
)
    requires
        forall|i: int|
            0 <= i < names.len() ==> (#[trigger] names[i]) != ""@ && names[i] != "."@ && names[i]
                != ".."@,
    ensures
        resolve(pieces + names, absolute) == resolve(pieces, absolute) + names,
    decreases names.len(),
{
    if names.len() == 0 {
        assert(pieces + names =~= pieces);
        assert(resolve(pieces, absolute) + names =~= resolve(pieces, absolute));
    } else {
        let front = names.drop_last();
        assert forall|i: int| 0 <= i < front.len() implies (#[trigger] front[i]) != ""@ && front[i]
            != "."@ && front[i] != ".."@ by {
            assert(front[i] == names[i]);
        }
        lemma_resolve_names(pieces, front, absolute);
        assert((pieces + names).drop_last() =~= pieces + front);
        assert(names.last() == names[names.len() - 1]);
        assert(resolve(pieces, absolute) + names =~= (resolve(pieces, absolute) + front).push(
            names.last(),
        ));
    }
}

proof fn lemma_slashed_concat(a: Seq<Seq<char>>, b: Seq<Seq<char>>)
    ensures
        slashed(a + b) == slashed(a) + slashed(b),
    decreases b.len(),
{
    if b.len() == 0 {
        assert(a + b =~= a);
        assert(slashed(a) + slashed(b) =~= slashed(a));
    } else {
        lemma_slashed_concat(a, b.drop_last());
        assert((a + b).drop_last() =~= a + b.drop_last());
        assert(slashed(a) + (slashed(b.drop_last()) + "/"@ + b.last()) =~= slashed(a) + slashed(
            b.drop_last(),
        ) + "/"@ + b.last());
    }
}

/// A file below a directory: a target that is in normal form and starts with a slash is looked up
/// as the directory followed by the target, every directory that it names included.
pub proof fn law_target_is_below_the_directory(base: Seq<char>, target: Seq<char>)
    requires
        is_absolute(base),
        normalize_spec(base) == base,
        is_absolute(target),
        normalize_spec(target) == target,
        target != seq!['/'],
    ensures
        join_spec(base, seq!['.'] + target) == (if base == seq!['/'] {
            target
        } else {
            base + target
        }),
{
    lemma_marks();
    lemma_components_of(base);
    lemma_components_of(target);
    let outer = resolve(text::split_spec(base, '/'), true);
    let inner = resolve(text::split_spec(target, '/'), true);
    assert(target == slashed(inner));
    let front = base + "/"@ + "."@;
    let pieces = text::split_spec(front, '/');
    lemma_append_component(base, "."@);
    lemma_split_slashed(front, inner);
    assert(base + "/"@ + (seq!['.'] + target) =~= front + slashed(inner));
    assert(resolve(pieces, true) == outer);
    assert forall|i: int| 0 <= i < inner.len() implies (#[trigger] inner[i]) != ""@ && inner[i]
        != "."@ && inner[i] != ".."@ by {}
    lemma_resolve_names(pieces, inner, true);
    lemma_slashed_concat(outer, inner);
    assert(is_absolute(front + slashed(inner)));
    assert((outer + inner).len() > 0);
    if outer.len() == 0 {
        assert(outer + inner =~= inner);
    }
}

/// What follows the last dot of a file name is its extension, whatever directory the file is in,
/// provided that something stands before that dot.
pub proof fn law_extension_follows_the_last_dot(
    dir: Seq<char>,
    stem: Seq<char>,
    ext: Seq<char>,
)
    requires
        stem.len() > 0,
        !stem.contains('/'),
        !ext.contains('/'),
        !ext.contains('.'),
        stem + seq!['.'] + ext != seq!['.', '.'],
    ensures
        extension_spec(stem + seq!['.'] + ext) == Some(ext),
        extension_spec(dir + seq!['/'] + (stem + seq!['.'] + ext)) == Some(ext),
{
    lemma_marks();
    let name = stem + seq!['.'] + ext;
    let n = stem.len() as int;
    assert(!name.contains('/')) by {
        if name.contains('/') {
            let i = name.index_of('/');
            assert(name[i] == '/');
            if i < n {
                assert(stem.contains(stem[i]));
            } else if i > n {
                assert(ext.contains(ext[i - n - 1]));
            }
        }
    }
    assert forall|i: int| n < i < name.len() implies name[i] != '.' by {
        assert(ext.contains(ext[i - n - 1]));
    }
    lemma_last_char(name, '.', name.len() as int, n);
    assert(name.skip(n + 1) =~= ext);
    text::lemma_split_single(name, '/');
    lemma_append_component(dir, name);
    assert(dir + "/"@ + name =~= dir + seq!['/'] + name);
}

/// A file name without a dot behind its first character has no extension, nor has `..`.
pub proof fn law_names_without_an_extension(dir: Seq<char>, name: Seq<char>)
    requires
        !name.contains('/'),
        name == seq!['.', '.'] || forall|i: int| 0 < i < name.len() ==> name[i] != '.',
    ensures
        extension_spec(name) is None,
        extension_spec(dir + seq!['/'] + name) is None,
{
    lemma_marks();
    text::lemma_split_single(name, '/');
    lemma_append_component(dir, name);
    assert(dir + "/"@ + name =~= dir + seq!['/'] + name);
    if name.len() > 0 && name[0] == '.' && name != seq!['.', '.'] {
        lemma_last_char(name, '.', name.len() as int, 0);
    } else if name != seq!['.', '.'] {
        lemma_last_char(name, '.', name.len() as int, -1);
    }
}

/// The last occurrence of a character is what `rfind_char` finds; -1 stands for none.
proof fn lemma_last_char(s: Seq<char>, c: char, upto: int, at: int)
    requires
        -1 <= at < upto <= s.len() || (at == -1 && upto == 0),
        at >= 0 ==> s[at] == c,
        forall|i: int| at < i < upto ==> s[i] != c,
    ensures
        rfind_char(s, c, upto) == (if at >= 0 {
            Some(at)
        } else {
            None
        }),
    decreases upto,
{
    if upto > 0 && upto - 1 > at {
        lemma_last_char(s, c, upto - 1, at);
    }
}

} // verus!
