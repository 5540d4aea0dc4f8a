//! Keys of assets made of paths, and the directory that assets may come from.
use vstd::prelude::*;

use crate::error::Error;
use crate::numbers;

verus! {

/// A part of a path.
#[derive(Debug)]
pub enum PathComponent {
    /// What stands in front of the root on some systems, such as the letter of a drive.
    Prefix,
    /// The root directory.
    RootDir,
    /// The current directory.
    CurDir,
    /// The parent directory.
    ParentDir,
    /// A file or a directory.
    Normal(String),
}

/// A part of a path with its text as a sequence of characters.
pub enum ComponentView {
    Prefix,
    RootDir,
    CurDir,
    ParentDir,
    Normal(Seq<char>),
}

impl View for PathComponent {
    type V = ComponentView;

    open spec fn view(&self) -> ComponentView {
        match *self {
            PathComponent::Prefix => ComponentView::Prefix,
            PathComponent::RootDir => ComponentView::RootDir,
            PathComponent::CurDir => ComponentView::CurDir,
            PathComponent::ParentDir => ComponentView::ParentDir,
            PathComponent::Normal(name) => ComponentView::Normal(name@),
        }
    }
}

/// The views of the parts of a path.
pub open spec fn component_views(components: Seq<PathComponent>) -> Seq<ComponentView> {
    components.map_values(|component: PathComponent| component@)
}

/// The pieces between the slashes of a text.
pub open spec fn pieces(text: Seq<char>) -> Seq<Seq<char>>
    decreases text.len(),
{
    if text.len() == 0 {
        seq![Seq::empty()]
    } else {
        let before = pieces(text.drop_last());
        if text.last() == '/' {
            before.push(Seq::empty())
        } else {
            before.drop_last().push(before.last().push(text.last()))
        }
    }
}

/// The parts that pieces stand for. Empty pieces and single dots stand for none.
pub open spec fn named_components(pieces: Seq<Seq<char>>) -> Seq<ComponentView>
    decreases pieces.len(),
{
    if pieces.len() == 0 {
        Seq::empty()
    } else {
        let before = named_components(pieces.drop_last());
        let piece = pieces.last();
        if piece.len() == 0 || piece == seq!['.'] {
            before
        } else if piece == seq!['.', '.'] {
            before.push(ComponentView::ParentDir)
        } else {
            before.push(ComponentView::Normal(piece))
        }
    }
}

/// The parts of a path where slashes alone separate parts. A slash in front stands for the root, a
/// single dot in front for the current directory. Those are the parts of every path on systems where
/// no other character has a meaning, and of unambiguous paths on every system.
pub open spec fn components(path: Seq<char>) -> Seq<ComponentView> {
    let all = pieces(path);
    let front = if path.len() > 0 && path[0] == '/' {
        seq![ComponentView::RootDir]
    } else if all[0] == seq!['.'] {
        seq![ComponentView::CurDir]
    } else {
        Seq::empty()
    };
    front + named_components(all)
}

/// The path starts with a slash.
pub open spec fn starts_at_root(path: Seq<char>) -> bool {
    path.len() > 0 && path[0] == '/'
}

/// The piece names a file or a directory.
pub open spec fn is_name(piece: Seq<char>) -> bool {
    piece.len() > 0 && !piece.contains('/') && piece != seq!['.'] && piece != seq!['.', '.']
}

/// The path with a slash in place of each backslash.
pub open spec fn slashed(path: Seq<char>) -> Seq<char> {
    path.map_values(
        |c: char|
            if c == '\\' {
                '/'
            } else {
                c
            },
    )
}

/// A system may see a prefix in front of the path: it starts with two separators, or a colon stands
/// behind its first character.
pub open spec fn may_have_prefix(path: Seq<char>) -> bool {
    path.len() >= 2 && (path[1] == ':' || slashed(path)[0] == '/' && slashed(path)[1] == '/')
}

/// The path means the same on every system: it holds no backslash and can have no prefix.
pub open spec fn unambiguous(path: Seq<char>) -> bool {
    !path.contains('\\') && !may_have_prefix(path)
}

/// The path means the same on every system, and so does every path made of its names.
pub open spec fn portable(path: Seq<char>) -> bool {
    unambiguous(path) && !path.contains(':')
}

/// `std::path::Path::components`: the parts of a path. Slashes separate them, on some systems
/// backslashes too; repeated ones, one at the end, and a single dot anywhere but in front are
/// skipped. Some systems know prefixes, which stand in front of everything else: the letter of a
/// drive with a colon, or what starts with two separators. Which of these holds is left to the system.
#[verifier::external_body]
fn path_components(path: &str) -> (res: Vec<PathComponent>)
    ensures
        ({
            ||| component_views(res@) == components(path@)
            ||| component_views(res@) == components(slashed(path@))
            ||| may_have_prefix(path@) && res@.len() > 0 && res@[0] is Prefix
        }),
{
    std::path::Path::new(path).components().map(
        |component| match component {
            std::path::Component::Prefix(_) => PathComponent::Prefix,
            std::path::Component::RootDir => PathComponent::RootDir,
            std::path::Component::CurDir => PathComponent::CurDir,
            std::path::Component::ParentDir => PathComponent::ParentDir,
            std::path::Component::Normal(name) => PathComponent::Normal(
                name.to_string_lossy().into_owned(),
            ),
        },
    ).collect()
}

/// What the parts of a path come to.
pub enum Key {
    /// The key.
    Made(Seq<char>),
    /// The path leads through a parent directory.
    ParentDir,
    /// The path is not relative.
    NotRelative,
}

/// The key that the parts of a path make: their names, separated by slashes. The first part that no
/// key can have decides.
pub open spec fn key_of(components: Seq<ComponentView>) -> Key
    decreases components.len(),
{
    if components.len() == 0 {
        Key::Made(Seq::empty())
    } else {
        match key_of(components.drop_last()) {
            Key::Made(key) => match components.last() {
                ComponentView::Normal(name) => Key::Made(
                    if key.len() == 0 {
                        name
                    } else {
                        key.push('/') + name
                    },
                ),
                ComponentView::CurDir => Key::Made(key),
                ComponentView::ParentDir => Key::ParentDir,
                ComponentView::RootDir | ComponentView::Prefix => Key::NotRelative,
            },
            refused => refused,
        }
    }
}

/// What is returned for a key.
pub open spec fn is_key_result(res: Result<String, Error>, key: Key) -> bool {
    match res {
        Ok(text) => key == Key::Made(text@),
        Err(Error::ParentDirInPath) => key is ParentDir,
        Err(Error::PathNotRelative) => key is NotRelative,
        Err(_) => false,
    }
}

/// Once a path is refused, more parts do not change that.
proof fn lemma_refused(components: Seq<ComponentView>, count: int)
    requires
        0 <= count <= components.len(),
        !(key_of(components.take(count)) is Made),
    ensures
        key_of(components) == key_of(components.take(count)),
    decreases components.len() - count,
{
    if count < components.len() {
        assert(components.take(count + 1).drop_last() =~= components.take(count));
        lemma_refused(components, count + 1);
    } else {
        assert(components.take(count) =~= components);
    }
}

/// Makes a key of the parts of a path.
pub fn key_from_components(components: &Vec<PathComponent>) -> (res: Result<String, Error>)
    ensures
        is_key_result(res, key_of(component_views(components@))),
{
    let ghost views = component_views(components@);
    proof {
        reveal_strlit("/");
    }
    let mut key = String::new();
    let mut i: usize = 0;
    while i < components.len()
        invariant
            i <= components@.len(),
            views == component_views(components@),
            "/"@ == seq!['/'],
            key_of(views.take(i as int)) == Key::Made(key@),
        decreases components@.len() - i,
    {
        proof {
            assert(views.take(i + 1).drop_last() =~= views.take(i as int));
            assert(views.take(i + 1).last() == components@[i as int]@);
            if !(key_of(views.take(i + 1)) is Made) {
                lemma_refused(views, i + 1);
            }
        }
        match &components[i] {
            PathComponent::Normal(name) => {
                let ghost before = key@;
                if !key.as_str().is_empty() {
                    key.append("/");
                }
                key.append(name.as_str());
                assert(key@ =~= if before.len() == 0 {
                    name@
                } else {
                    before.push('/') + name@
                });
            },
            PathComponent::ParentDir => {
                return Err(Error::ParentDirInPath);
            },
            PathComponent::RootDir | PathComponent::Prefix => {
                return Err(Error::PathNotRelative);
            },
            PathComponent::CurDir => {},
        }
        i = i + 1;
    }
    assert(views.take(i as int) =~= views);
    Ok(key)
}

/// The text is a key: where slashes alone separate parts, it is its own key, and unless it is empty
/// it is a series of names.
pub open spec fn is_key(key: Seq<char>) -> bool {
    &&& key_of(components(key)) == Key::Made(key)
    &&& key.len() > 0 ==> forall|i: int|
        0 <= i < pieces(key).len() ==> is_name(#[trigger] pieces(key)[i])
}

/// No system makes a key of the path: it starts with a slash or leads through a parent directory.
pub open spec fn has_no_key(path: Seq<char>) -> bool {
    starts_at_root(path) || pieces(path).contains(seq!['.', '.'])
}

/// What is returned for a path: its key where slashes alone separate parts, or where backslashes
/// separate them too, or the refusal of a path with a prefix. For a path without backslashes the
/// first two are the same, and the third is only for paths that may have a prefix.
pub open spec fn is_path_result(res: Result<String, Error>, path: Seq<char>) -> bool {
    ||| is_key_result(res, key_of(components(path)))
    ||| is_key_result(res, key_of(components(slashed(path))))
    ||| may_have_prefix(path) && res == Err::<String, Error>(Error::PathNotRelative)
}

/// Makes a key of a path: the names in it, separated by slashes. The path has to be relative and
/// may not lead through a parent directory. Whether backslashes separate names, and whether there
/// are prefixes, is left to the system.
pub fn path_to_key(path: &str) -> (res: Result<String, Error>)
    ensures
        is_path_result(res, path@),
        unambiguous(path@) ==> is_key_result(res, key_of(components(path@))),
        !path@.contains('\\') ==> is_key_result(res, key_of(components(path@)))
            || may_have_prefix(path@) && res == Err::<String, Error>(Error::PathNotRelative),
        match res {
            Ok(key) => is_key(key@) && !has_no_key(path@),
            Err(error) => error == Error::ParentDirInPath || error == Error::PathNotRelative,
        },
{
    let parts = path_components(path);
    let res = key_from_components(&parts);
    proof {
        let views = component_views(parts@);
        if parts@.len() > 0 && parts@[0] is Prefix {
            lemma_prefix_is_refused(views);
        }
        if !path@.contains('\\') {
            lemma_slashed_is_same(path@);
        }
        if res is Ok {
            if views == components(path@) {
                lemma_key_of_path(path@);
            } else {
                lemma_key_of_path(slashed(path@));
                lemma_slashed_pieces(path@);
            }
        }
    }
    res
}

/// A path without backslashes is the same with slashes in their place.
proof fn lemma_slashed_is_same(path: Seq<char>)
    requires
        !path.contains('\\'),
    ensures
        slashed(path) == path,
{
    assert forall|i: int| 0 <= i < path.len() implies path[i] != '\\' by {
        assert(path.contains(path[i]));
    }
    assert(slashed(path) =~= path);
}

/// A path with a prefix is refused.
proof fn lemma_prefix_is_refused(components: Seq<ComponentView>)
    requires
        components.len() > 0,
        components[0] is Prefix,
    ensures
        key_of(components) is NotRelative,
{
    let front = components.take(1);
    assert(front.drop_last() =~= Seq::<ComponentView>::empty());
    assert(key_of(front) is NotRelative) by {
        reveal_with_fuel(key_of, 2);
    }
    lemma_refused(components, 1);
}

/// What a path makes is a key, and a path that has one neither starts with a slash nor leads through
/// a parent directory.
proof fn lemma_key_of_path(path: Seq<char>)
    requires
        key_of(components(path)) is Made,
    ensures
        key_of(components(path)) matches Key::Made(key) && is_key(key),
        !has_no_key(path),
{
    lemma_component_names(path);
    lemma_key_of_names(components(path));
    lemma_not_at_root(path);
    lemma_made_parts(components(path));
    let named = named_components(pieces(path));
    if pieces(path).contains(seq!['.', '.']) {
        lemma_parent_piece(pieces(path));
        let at = choose|i: int| 0 <= i < named.len() && #[trigger] named[i] is ParentDir;
        let front = components(path).len() - named.len();
        assert(components(path)[front + at] == named[at]);
    }
}

/// Two dots between slashes are a parent directory.
proof fn lemma_parent_piece(pieces: Seq<Seq<char>>)
    requires
        pieces.contains(seq!['.', '.']),
    ensures
        exists|i: int|
            0 <= i < named_components(pieces).len() && #[trigger] named_components(
                pieces,
            )[i] is ParentDir,
    decreases pieces.len(),
{
    let earlier = pieces.drop_last();
    let named = named_components(pieces);
    let dots = seq!['.', '.'];
    assert(dots.len() == 2);
    if pieces.last() == dots {
        assert(named[named.len() - 1] is ParentDir);
    } else {
        let at = pieces.index_of(dots);
        assert(earlier[at] == dots);
        lemma_parent_piece(earlier);
        let before = named_components(earlier);
        let i = choose|i: int| 0 <= i < before.len() && #[trigger] before[i] is ParentDir;
        assert(named[i] == before[i]);
    }
}

/// A piece without backslashes is still a piece where backslashes separate pieces too.
proof fn lemma_slashed_pieces(path: Seq<char>)
    ensures
        starts_at_root(path) ==> starts_at_root(slashed(path)),
        pieces(path).len() > 0,
        pieces(slashed(path)).len() > 0,
        !pieces(path).last().contains('\\') ==> pieces(slashed(path)).last() == pieces(
            path,
        ).last(),
        forall|i: int|
            0 <= i < pieces(path).len() - 1 && !(#[trigger] pieces(path)[i]).contains('\\')
                ==> pieces(slashed(path)).drop_last().contains(pieces(path)[i]),
        pieces(path).contains(seq!['.', '.']) ==> pieces(slashed(path)).contains(seq!['.', '.']),
    decreases path.len(),
{
    let all = pieces(path);
    let split = pieces(slashed(path));
    if path.len() > 0 {
        let earlier = path.drop_last();
        lemma_slashed_pieces(earlier);
        assert(slashed(path).drop_last() =~= slashed(earlier));
        let before = pieces(earlier);
        let split_before = pieces(slashed(earlier));
        let last = path.last();
        assert forall|i: int| 0 <= i < all.len() - 1 && !(#[trigger] all[i]).contains(
            '\\',
        ) implies split.drop_last().contains(all[i]) by {
            if i < before.len() - 1 {
                assert(all[i] == before[i]);
                let at = split_before.drop_last().index_of(before[i]);
                assert(split_before[at] == before[i]);
                assert(split[at] == before[i]);
                assert(split.drop_last()[at] == before[i]);
            } else {
                assert(last == '/');
                assert(all[i] == before.last());
                assert(split.drop_last()[split_before.len() - 1] == split_before.last());
            }
        }
        if !all.last().contains('\\') && last != '/' {
            let grown = all.last();
            assert(grown[grown.len() - 1] == last);
            assert(grown.contains(last));
            assert forall|c: char| before.last().contains(c) implies grown.contains(c) by {
                let j = before.last().index_of(c);
                assert(grown[j] == c);
            }
        }
    }
    let dots = seq!['.', '.'];
    if all.contains(dots) {
        let at = all.index_of(dots);
        assert(!dots.contains('\\'));
        if at < all.len() - 1 {
            assert(!all[at].contains('\\'));
            let found = split.drop_last().index_of(dots);
            assert(split[found] == dots);
        } else {
            assert(split[split.len() - 1] == dots);
        }
    }
}

/// The names among the parts of a path are names, and pieces of it.
proof fn lemma_component_names(path: Seq<char>)
    ensures
        forall|i: int|
            0 <= i < names(components(path)).len() ==> is_name(
                #[trigger] names(components(path))[i],
            ) && pieces(path).contains(names(components(path))[i]),
{
    let all = pieces(path);
    let named = named_components(all);
    lemma_pieces(path);
    assert forall|i: int| 0 <= i < all.len() implies !(#[trigger] all[i]).contains('/') by {}
    lemma_named_components(all);
    if path.len() > 0 && path[0] == '/' {
        lemma_names_behind(ComponentView::RootDir, named);
    } else if all[0] == seq!['.'] {
        lemma_names_behind(ComponentView::CurDir, named);
    } else {
        assert(components(path) =~= named);
    }
}

/// The parts of a path that has a key are names, or stand for the current directory.
proof fn lemma_made_parts(components: Seq<ComponentView>)
    requires
        key_of(components) is Made,
    ensures
        forall|i: int|
            0 <= i < components.len() ==> (#[trigger] components[i] is Normal
                || components[i] is CurDir),
    decreases components.len(),
{
    if components.len() > 0 {
        let earlier = components.drop_last();
        lemma_made_parts(earlier);
        assert forall|i: int| 0 <= i < components.len() implies (#[trigger] components[i] is Normal
            || components[i] is CurDir) by {
            if i < earlier.len() {
                assert(earlier[i] == components[i]);
            }
        }
    }
}

/// Names separated by slashes.
pub open spec fn joined(names: Seq<Seq<char>>) -> Seq<char>
    decreases names.len(),
{
    if names.len() == 0 {
        Seq::empty()
    } else if names.len() == 1 {
        names[0]
    } else {
        joined(names.drop_last()).push('/') + names.last()
    }
}

/// The names among the parts of a path.
spec fn names(components: Seq<ComponentView>) -> Seq<Seq<char>>
    decreases components.len(),
{
    if components.len() == 0 {
        Seq::empty()
    } else {
        let before = names(components.drop_last());
        match components.last() {
            ComponentView::Normal(name) => before.push(name),
            _ => before,
        }
    }
}

/// There is at least one piece, and pieces are made of characters of the text, without slashes.
proof fn lemma_pieces(text: Seq<char>)
    ensures
        pieces(text).len() > 0,
        forall|i: int, c: char|
            0 <= i < pieces(text).len() && #[trigger] pieces(text)[i].contains(c) ==> c != '/'
                && text.contains(c),
    decreases text.len(),
{
    if text.len() > 0 {
        let before = pieces(text.drop_last());
        lemma_pieces(text.drop_last());
        assert forall|i: int, c: char|
            0 <= i < pieces(text).len() && #[trigger] pieces(text)[i].contains(c) implies c != '/'
            && text.contains(c) by {
            let j = pieces(text)[i].index_of(c);
            if i < before.len() - 1 || text.last() == '/' || j < before.last().len() {
                if i < before.len() {
                    assert(before[i][j] == c);
                    assert(before[i].contains(c));
                    let at = text.drop_last().index_of(c);
                    assert(text[at] == c);
                }
            } else {
                assert(c == text.last());
                assert(text[text.len() - 1] == c);
            }
        }
    }
}

/// The names among the parts that pieces stand for are names.
proof fn lemma_named_components(pieces: Seq<Seq<char>>)
    requires
        forall|i: int| 0 <= i < pieces.len() ==> !(#[trigger] pieces[i]).contains('/'),
    ensures
        forall|i: int|
            0 <= i < names(named_components(pieces)).len() ==> is_name(
                #[trigger] names(named_components(pieces))[i],
            ) && pieces.contains(names(named_components(pieces))[i]),
    decreases pieces.len(),
{
    if pieces.len() > 0 {
        let earlier = pieces.drop_last();
        let before = named_components(earlier);
        let piece = pieces.last();
        lemma_named_components(earlier);
        assert forall|i: int| 0 <= i < names(before).len() implies pieces.contains(
            #[trigger] names(before)[i],
        ) by {
            let at = earlier.index_of(names(before)[i]);
            assert(pieces[at] == names(before)[i]);
        }
        assert(pieces[pieces.len() - 1] == piece);
        if !(piece.len() == 0 || piece == seq!['.']) {
            let part = named_components(pieces).last();
            assert(named_components(pieces).drop_last() =~= before);
        }
    }
}

/// The names of parts that follow a first part that is no name.
proof fn lemma_names_behind(front: ComponentView, components: Seq<ComponentView>)
    requires
        !(front is Normal),
    ensures
        names(seq![front] + components) == names(components),
    decreases components.len(),
{
    let all = seq![front] + components;
    if components.len() > 0 {
        lemma_names_behind(front, components.drop_last());
        assert(all.drop_last() =~= seq![front] + components.drop_last());
    } else {
        assert(all.drop_last() =~= components);
        assert(all.last() == front);
    }
}

/// A key is the names of the path, separated by slashes.
proof fn lemma_key_is_joined(components: Seq<ComponentView>)
    requires
        key_of(components) is Made,
        forall|i: int|
            0 <= i < names(components).len() ==> (#[trigger] names(components)[i]).len() > 0,
    ensures
        key_of(components) == Key::Made(joined(names(components))),
        joined(names(components)).len() == 0 <==> names(components).len() == 0,
    decreases components.len(),
{
    if components.len() > 0 {
        let earlier = components.drop_last();
        let before = names(earlier);
        let all = names(components);
        assert forall|i: int| 0 <= i < before.len() implies (#[trigger] before[i]).len() > 0 by {
            assert(before[i] == all[i]);
        }
        lemma_key_is_joined(earlier);
        if components.last() is Normal {
            assert(all.drop_last() =~= before);
            assert(all[all.len() - 1].len() > 0);
        }
    }
}

/// Names of characters of a text make a key of such characters and slashes.
proof fn lemma_joined_chars(names: Seq<Seq<char>>, text: Seq<char>)
    requires
        forall|i: int, c: char|
            0 <= i < names.len() && #[trigger] names[i].contains(c) ==> text.contains(c),
    ensures
        forall|c: char| #[trigger] joined(names).contains(c) ==> c == '/' || text.contains(c),
    decreases names.len(),
{
    if names.len() == 1 {
        assert forall|c: char| #[trigger] joined(names).contains(c) implies c == '/'
            || text.contains(c) by {
            assert(names[0].contains(c));
        }
    } else if names.len() > 1 {
        let earlier = names.drop_last();
        assert forall|i: int, c: char|
            0 <= i < earlier.len() && #[trigger] earlier[i].contains(c) implies text.contains(c) by {
            assert(names[i].contains(c));
        }
        lemma_joined_chars(earlier, text);
        assert forall|c: char| #[trigger] joined(names).contains(c) implies c == '/'
            || text.contains(c) by {
            let j = joined(names).index_of(c);
            if j < joined(earlier).len() {
                assert(joined(earlier)[j] == c);
                assert(joined(earlier).contains(c));
            } else if j > joined(earlier).len() {
                assert(names[names.len() - 1][j - joined(earlier).len() - 1] == c);
                assert(names[names.len() - 1].contains(c));
            }
        }
    }
}

/// A text without slashes goes to the last piece.
proof fn lemma_pieces_append(text: Seq<char>, name: Seq<char>)
    requires
        !name.contains('/'),
    ensures
        pieces(text + name) == pieces(text).drop_last().push(pieces(text).last() + name),
    decreases name.len(),
{
    lemma_pieces(text);
    if name.len() == 0 {
        assert(text + name =~= text);
        assert(pieces(text).last() + name =~= pieces(text).last());
        assert(pieces(text).drop_last().push(pieces(text).last()) =~= pieces(text));
    } else {
        let all = text + name;
        assert(name[name.len() - 1] != '/');
        assert forall|c: char| name.drop_last().contains(c) implies name.contains(c) by {
            let j = name.drop_last().index_of(c);
            assert(name[j] == c);
        }
        lemma_pieces_append(text, name.drop_last());
        assert(all.drop_last() =~= text + name.drop_last());
        assert((pieces(text).last() + name.drop_last()).push(name.last()) =~= pieces(text).last()
            + name);
        assert(pieces(all) =~= pieces(text).drop_last().push(pieces(text).last() + name));
    }
}

/// The pieces of names that are separated by slashes are the names.
proof fn lemma_pieces_of_joined(names: Seq<Seq<char>>)
    requires
        names.len() > 0,
        forall|i: int| 0 <= i < names.len() ==> is_name(#[trigger] names[i]),
    ensures
        pieces(joined(names)) == names,
        joined(names).len() > 0,
        joined(names)[0] != '/',
    decreases names.len(),
{
    let name = names.last();
    assert(is_name(names[0]) && names[0].contains(names[0][0]));
    assert(is_name(names[names.len() - 1]));
    if names.len() == 1 {
        lemma_pieces_append(Seq::empty(), name);
        assert(Seq::<char>::empty() + name =~= name);
        assert(pieces(joined(names)) =~= names);
    } else {
        let earlier = names.drop_last();
        assert forall|i: int| 0 <= i < earlier.len() implies is_name(#[trigger] earlier[i]) by {
            assert(earlier[i] == names[i]);
        }
        lemma_pieces_of_joined(earlier);
        let text = joined(earlier).push('/');
        assert(text.drop_last() =~= joined(earlier));
        assert(pieces(text) == earlier.push(Seq::empty()));
        lemma_pieces_append(text, name);
        assert(pieces(text).drop_last() =~= earlier);
        assert(Seq::<char>::empty() + name =~= name);
        assert(pieces(joined(names)) =~= names);
    }
}

/// Pieces that are names stand for those names, and the key of those is the names again.
proof fn lemma_names_as_components(all: Seq<Seq<char>>)
    requires
        forall|i: int| 0 <= i < all.len() ==> is_name(#[trigger] all[i]),
    ensures
        key_of(named_components(all)) == Key::Made(joined(all)),
        joined(all).len() == 0 <==> all.len() == 0,
    decreases all.len(),
{
    if all.len() > 0 {
        let earlier = all.drop_last();
        assert forall|i: int| 0 <= i < earlier.len() implies is_name(#[trigger] earlier[i]) by {
            assert(earlier[i] == all[i]);
        }
        lemma_names_as_components(earlier);
        assert(is_name(all[all.len() - 1]));
        assert(named_components(all).drop_last() =~= named_components(earlier));
    }
}

/// What names make, separated by slashes, is a key.
proof fn lemma_key_of_names(components: Seq<ComponentView>)
    requires
        key_of(components) is Made,
        forall|i: int| 0 <= i < names(components).len() ==> is_name(#[trigger] names(components)[i]),
    ensures
        key_of(components) matches Key::Made(key) && is_key(key),
{
    let found = names(components);
    assert forall|i: int| 0 <= i < found.len() implies (#[trigger] found[i]).len() > 0 by {
        assert(is_name(found[i]));
    }
    lemma_key_is_joined(components);
    let key = joined(found);
    if found.len() == 0 {
        assert(pieces(key) =~= seq![Seq::<char>::empty()]);
        assert(pieces(key).drop_last() =~= Seq::<Seq<char>>::empty());
        assert(named_components(pieces(key)) =~= Seq::<ComponentView>::empty()) by {
            reveal_with_fuel(named_components, 2);
        }
        assert(pieces(key)[0] != seq!['.']) by {
            assert(seq!['.'].len() == 1);
        }
        assert(self::components(key) =~= Seq::<ComponentView>::empty());
    } else {
        lemma_pieces_of_joined(found);
        assert(is_name(found[0]));
        assert(self::components(key) =~= named_components(found));
        lemma_names_as_components(found);
    }
}

/// A key is its own key, and means the same on every system if the path does. It is a series of
/// names separated by slashes: it neither starts at the root nor leads through a parent directory.
pub proof fn law_key_of_key(path: Seq<char>, key: Seq<char>)
    requires
        key_of(components(path)) == Key::Made(key),
    ensures
        is_key(key),
        portable(path) ==> portable(key),
{
    let all = pieces(path);
    let found = names(components(path));
    lemma_pieces(path);
    lemma_component_names(path);
    assert forall|i: int| 0 <= i < found.len() implies (#[trigger] found[i]).len() > 0 by {
        assert(is_name(found[i]));
    }
    lemma_key_is_joined(components(path));
    assert(key == joined(found));
    assert forall|i: int, c: char|
        0 <= i < found.len() && #[trigger] found[i].contains(c) implies path.contains(c) by {
        let at = all.index_of(found[i]);
        assert(all[at].contains(c));
    }
    lemma_joined_chars(found, path);
    lemma_key_of_names(components(path));
    if found.len() > 0 {
        lemma_pieces_of_joined(found);
    }
    if portable(path) {
        lemma_slashed_is_same(key);
        if key.len() >= 2 {
            assert(key.contains(key[1]));
        }
    }
}

/// What a relative path leads to behind another path: a slash is put between them unless the first
/// is empty or ends with one.
pub open spec fn adjoined(path: Seq<char>, more: Seq<char>) -> Seq<char> {
    if path.len() == 0 || path.last() == '/' {
        path + more
    } else {
        path.push('/') + more
    }
}

/// A key behind another: a slash is put between them unless one is empty.
pub open spec fn joined_keys(first: Seq<char>, second: Seq<char>) -> Seq<char> {
    if first.len() == 0 {
        second
    } else if second.len() == 0 {
        first
    } else {
        first.push('/') + second
    }
}

/// The pieces of two texts with a slash between them.
proof fn lemma_pieces_of_both(first: Seq<char>, second: Seq<char>)
    ensures
        pieces(first.push('/') + second) == pieces(first) + pieces(second),
    decreases second.len(),
{
    let all = first.push('/') + second;
    lemma_pieces(second);
    if second.len() == 0 {
        assert(all =~= first.push('/'));
        assert(all.drop_last() =~= first);
        assert(pieces(all) =~= pieces(first) + pieces(second));
    } else {
        lemma_pieces_of_both(first, second.drop_last());
        lemma_pieces(second.drop_last());
        assert(all.drop_last() =~= first.push('/') + second.drop_last());
        assert(pieces(all) =~= pieces(first) + pieces(second));
    }
}

/// The parts of two series of pieces.
proof fn lemma_named_components_of_both(first: Seq<Seq<char>>, second: Seq<Seq<char>>)
    ensures
        named_components(first + second) == named_components(first) + named_components(second),
    decreases second.len(),
{
    if second.len() == 0 {
        assert(first + second =~= first);
        assert(named_components(first) + named_components(second) =~= named_components(first));
    } else {
        lemma_named_components_of_both(first, second.drop_last());
        assert((first + second).drop_last() =~= first + second.drop_last());
        assert(named_components(first + second) =~= named_components(first) + named_components(
            second,
        ));
    }
}

/// The key of one series of parts and another.
proof fn lemma_key_of_both(first: Seq<ComponentView>, second: Seq<ComponentView>)
    requires
        key_of(first) is Made,
        forall|i: int|
            0 <= i < second.len() ==> (#[trigger] second[i] matches ComponentView::Normal(name)
                ==> name.len() > 0),
    ensures
        match (key_of(first), key_of(second)) {
            (Key::Made(before), Key::Made(after)) => key_of(first + second) == Key::Made(
                joined_keys(before, after),
            ),
            (_, refused) => key_of(first + second) == refused,
        },
    decreases second.len(),
{
    if second.len() == 0 {
        assert(first + second =~= first);
        if let Key::Made(before) = key_of(first) {
            assert(joined_keys(before, Seq::empty()) =~= before);
        }
    } else {
        let earlier = second.drop_last();
        assert((first + second).last() == second.last());
        assert forall|i: int| 0 <= i < earlier.len() implies (
        #[trigger] earlier[i] matches ComponentView::Normal(name) ==> name.len() > 0) by {
            assert(earlier[i] == second[i]);
        }
        lemma_key_of_both(first, earlier);
        assert((first + second).drop_last() =~= first + earlier);
        if let (Key::Made(before), Key::Made(after)) = (key_of(first), key_of(earlier)) {
            if let ComponentView::Normal(name) = second.last() {
                assert(second[second.len() - 1] == second.last());
                assert((before.push('/') + after).push('/') + name =~= before.push('/') + (
                after.push('/') + name));
            }
        }
    }
}

/// The parts that pieces stand for have no empty names.
proof fn lemma_no_empty_names(pieces: Seq<Seq<char>>)
    ensures
        forall|i: int|
            0 <= i < named_components(pieces).len() ==> (
            #[trigger] named_components(pieces)[i] matches ComponentView::Normal(name)
                ==> name.len() > 0),
    decreases pieces.len(),
{
    if pieces.len() > 0 {
        lemma_no_empty_names(pieces.drop_last());
    }
}

/// The key of a path behind another is the key of the one behind the key of the other, with a slash
/// between them unless one is empty. The path is portable if both are.
pub proof fn law_key_of_adjoined(path: Seq<char>, more: Seq<char>, first: Seq<char>, second: Seq<char>)
    requires
        key_of(components(path)) == Key::Made(first),
        key_of(components(more)) == Key::Made(second),
    ensures
        key_of(components(adjoined(path, more))) == Key::Made(joined_keys(first, second)),
        portable(path) && portable(more) ==> portable(adjoined(path, more)),
{
    let all = adjoined(path, more);
    let behind = named_components(pieces(more));
    lemma_not_at_root(path);
    lemma_not_at_root(more);
    lemma_no_empty_names(pieces(more));
    // the current directory in front of the second path adds nothing to its key
    if pieces(more)[0] == seq!['.'] {
        let front = seq![ComponentView::CurDir];
        assert(front.drop_last() =~= Seq::<ComponentView>::empty());
        assert(key_of(front) == Key::Made(Seq::<char>::empty())) by {
            reveal_with_fuel(key_of, 2);
        }
        lemma_key_of_both(front, behind);
    } else {
        assert(components(more) =~= behind);
    }
    assert(key_of(behind) == Key::Made(second));
    if path.len() == 0 {
        assert(all =~= more);
        assert(pieces(path) =~= seq![Seq::<char>::empty()]);
        assert(pieces(path).drop_last() =~= Seq::<Seq<char>>::empty());
        assert(named_components(pieces(path)) =~= Seq::<ComponentView>::empty()) by {
            reveal_with_fuel(named_components, 2);
        }
        assert(pieces(path)[0] != seq!['.']) by {
            assert(seq!['.'].len() == 1);
        }
        assert(components(path) =~= Seq::<ComponentView>::empty());
    } else {
        let before = if path.last() == '/' {
            path.drop_last()
        } else {
            path
        };
        assert(all =~= before.push('/') + more);
        assert(before.len() > 0);
        lemma_pieces(before);
        lemma_pieces_of_both(before, more);
        lemma_named_components_of_both(pieces(before), pieces(more));
        if path.last() == '/' {
            assert(pieces(path).drop_last() =~= pieces(before));
            assert(pieces(path)[0] == pieces(before)[0]);
        }
        assert(named_components(pieces(path)) == named_components(pieces(before)));
        assert(pieces(all)[0] == pieces(path)[0]);
        assert(all[0] == path[0]);
        assert(components(all) =~= components(path) + behind);
        lemma_key_of_both(components(path), behind);
        assert forall|c: char| #[trigger] all.contains(c) implies c == '/' || path.contains(c)
            || more.contains(c) by {
            let j = all.index_of(c);
            if j < before.len() {
                assert(path[j] == c);
            } else if j > before.len() {
                assert(more[j - before.len() - 1] == c);
            }
        }
    }
}

/// A path that starts with a slash has no key.
proof fn lemma_not_at_root(path: Seq<char>)
    requires
        key_of(components(path)) is Made,
    ensures
        !starts_at_root(path),
{
    lemma_made_parts(components(path));
    if starts_at_root(path) {
        assert(components(path)[0] == ComponentView::RootDir);
    }
}

/// The path starts with the parts of the directory.
pub open spec fn inside(path: Seq<Seq<u8>>, directory: Seq<Seq<u8>>) -> bool {
    directory.len() <= path.len() && path.take(directory.len() as int) == directory
}

/// Tests whether two sequences of bytes are the same.
fn same_bytes(left: &Vec<u8>, right: &Vec<u8>) -> (res: bool)
    ensures
        res == (left@ == right@),
{
    if left.len() != right.len() {
        return false;
    }
    let mut i: usize = 0;
    while i < left.len()
        invariant
            i <= left@.len(),
            left@.len() == right@.len(),
            forall|j: int| 0 <= j < i ==> left@[j] == right@[j],
        decreases left@.len() - i,
    {
        if left[i] != right[i] {
            return false;
        }
        i = i + 1;
    }
    assert(left@ =~= right@);
    true
}

/// Decides whether a path may be used: it has to be inside the directory of the assets. Both are
/// given by their parts, with no part left that leads elsewhere.
pub fn check_inside(path: &Vec<Vec<u8>>, directory: &Vec<Vec<u8>>) -> (res: Result<(), Error>)
    ensures
        match res {
            Ok(_) => inside(numbers::byte_strings(path@), numbers::byte_strings(directory@)),
            Err(error) => error == Error::OutsideAssets && !inside(
                numbers::byte_strings(path@),
                numbers::byte_strings(directory@),
            ),
        },
{
    if path.len() < directory.len() {
        return Err(Error::OutsideAssets);
    }
    let mut i: usize = 0;
    while i < directory.len()
        invariant
            i <= directory@.len() <= path@.len(),
            forall|j: int| 0 <= j < i ==> path@[j]@ == directory@[j]@,
        decreases directory@.len() - i,
    {
        if !same_bytes(&path[i], &directory[i]) {
            proof {
                let whole = numbers::byte_strings(path@).take(directory@.len() as int);
                assert(whole[i as int] != numbers::byte_strings(directory@)[i as int]);
            }
            return Err(Error::OutsideAssets);
        }
        i = i + 1;
    }
    assert(numbers::byte_strings(path@).take(directory@.len() as int) =~= numbers::byte_strings(
        directory@,
    ));
    Ok(())
}

/// The parts of a path, each as a sequence of bytes.
pub open spec fn parts_of(path: Vec<Vec<u8>>) -> Seq<Seq<u8>> {
    Seq::new(path@.len(), |i: int| path@[i]@)
}

/// A path is inside a directory if, and only if, it is the directory followed by any number of
/// further parts: each part of the directory is the part of the path at its place.
pub proof fn law_inside_at_any_depth(
    path: Vec<Vec<u8>>,
    directory: Vec<Vec<u8>>,
    res: Result<(), Error>,
)
    requires
        call_ensures(check_inside, (&path, &directory), res),
    ensures
        res is Ok <==> exists|more: Seq<Seq<u8>>|
            parts_of(path) == #[trigger] (parts_of(directory) + more),
        res is Ok <==> directory@.len() <= path@.len() && forall|i: int|
            0 <= i < directory@.len() ==> (#[trigger] path@[i])@ == directory@[i]@,
        res is Err ==> res == Err::<(), Error>(Error::OutsideAssets),
{
    lemma_inside(path, directory);
}

/// What is inside a directory is the directory with more behind it.
pub proof fn lemma_inside(path: Vec<Vec<u8>>, directory: Vec<Vec<u8>>)
    ensures
        inside(numbers::byte_strings(path@), numbers::byte_strings(directory@)) <==> exists|
            more: Seq<Seq<u8>>,
        | parts_of(path) == #[trigger] (parts_of(directory) + more),
        inside(numbers::byte_strings(path@), numbers::byte_strings(directory@))
            <==> directory@.len() <= path@.len() && forall|i: int|
            0 <= i < directory@.len() ==> (#[trigger] path@[i])@ == directory@[i]@,
{
    let all = parts_of(path);
    let front = parts_of(directory);
    assert(numbers::byte_strings(path@) =~= all);
    assert(numbers::byte_strings(directory@) =~= front);
    if inside(all, front) {
        assert(all =~= front + all.skip(front.len() as int));
        assert forall|i: int| 0 <= i < directory@.len() implies (#[trigger] path@[i])@
            == directory@[i]@ by {
            assert(all.take(front.len() as int)[i] == front[i]);
        }
    }
    assert forall|more: Seq<Seq<u8>>| all == #[trigger] (front + more) implies inside(
        all,
        front,
    ) by {
        assert(all.take(front.len() as int) =~= front);
    }
    if directory@.len() <= path@.len() && forall|i: int|
        0 <= i < directory@.len() ==> (#[trigger] path@[i])@ == directory@[i]@ {
        assert(all.take(front.len() as int) =~= front);
    }
}

/// The pieces that name something, in their order: all but empty ones and single dots.
pub open spec fn naming(pieces: Seq<Seq<char>>) -> Seq<Seq<char>>
    decreases pieces.len(),
{
    if pieces.len() == 0 {
        Seq::empty()
    } else if pieces.last().len() == 0 || pieces.last() == seq!['.'] {
        naming(pieces.drop_last())
    } else {
        naming(pieces.drop_last()).push(pieces.last())
    }
}

/// The pieces of pieces that are separated by slashes are the pieces.
proof fn lemma_pieces_of_any(all: Seq<Seq<char>>)
    requires
        all.len() > 0,
        forall|i: int| 0 <= i < all.len() ==> !(#[trigger] all[i]).contains('/'),
    ensures
        pieces(joined(all)) == all,
        all[0].len() == 0 && all.len() > 1 ==> joined(all).len() > 0 && joined(all)[0] == '/',
        all[0].len() > 0 ==> joined(all).len() > 0 && joined(all)[0] == all[0][0],
    decreases all.len(),
{
    let last = all.last();
    assert(!all[all.len() - 1].contains('/'));
    if all.len() == 1 {
        lemma_pieces_append(Seq::empty(), last);
        assert(Seq::<char>::empty() + last =~= last);
        assert(pieces(joined(all)) =~= all);
    } else {
        let earlier = all.drop_last();
        assert forall|i: int| 0 <= i < earlier.len() implies !(#[trigger] earlier[i]).contains(
            '/',
        ) by {
            assert(earlier[i] == all[i]);
        }
        lemma_pieces_of_any(earlier);
        let text = joined(earlier).push('/');
        assert(text.drop_last() =~= joined(earlier));
        assert(pieces(text) == earlier.push(Seq::empty()));
        lemma_pieces_append(text, last);
        assert(pieces(text).drop_last() =~= earlier);
        assert(Seq::<char>::empty() + last =~= last);
        assert(pieces(joined(all)) =~= all);
    }
}

/// The key of pieces is those that name something, separated by slashes; a parent directory among
/// them is refused.
proof fn lemma_key_of_pieces(all: Seq<Seq<char>>)
    ensures
        all.contains(seq!['.', '.']) ==> key_of(named_components(all)) is ParentDir,
        !all.contains(seq!['.', '.']) ==> key_of(named_components(all)) == Key::Made(
            joined(naming(all)),
        ),
        joined(naming(all)).len() == 0 <==> naming(all).len() == 0,
    decreases all.len(),
{
    let dots = seq!['.', '.'];
    assert(dots.len() == 2);
    if all.len() > 0 {
        let earlier = all.drop_last();
        let last = all.last();
        lemma_key_of_pieces(earlier);
        assert(all[all.len() - 1] == last);
        if earlier.contains(dots) {
            assert(all[earlier.index_of(dots)] == dots);
        }
        if all.contains(dots) && last != dots {
            assert(earlier[all.index_of(dots)] == dots);
        }
        if last.len() > 0 && last != seq!['.'] {
            assert(named_components(all).drop_last() =~= named_components(earlier));
            assert(naming(all).drop_last() =~= naming(earlier));
        }
    }
}

/// What becomes of a path that is given by the pieces between its separators: the names in it with
/// single slashes between them, or the reason for which there is no key.
pub open spec fn is_result_of_pieces(res: Result<String, Error>, all: Seq<Seq<char>>) -> bool {
    if all.len() > 1 && all[0].len() == 0 {
        res == Err::<String, Error>(Error::PathNotRelative)
    } else if all.contains(seq!['.', '.']) {
        res == Err::<String, Error>(Error::ParentDirInPath)
    } else {
        res matches Ok(key) && key@ == joined(naming(all))
    }
}

/// The pieces hold no separator, and with slashes between them they are the path.
pub open spec fn are_pieces_of(all: Seq<Seq<char>>, path: Seq<char>) -> bool {
    &&& all.len() > 0
    &&& forall|i: int| 0 <= i < all.len() ==> !(#[trigger] all[i]).contains('/')
    &&& path == joined(all)
}

/// The key of a relative path is the names in it, whatever they are, separated by single slashes:
/// slashes that are repeated or stand at the end, and single dots, make no difference. So a path that
/// is names with slashes between them is its own key. A path that leads through a parent directory is
/// refused for that, and one that starts with a slash for not being relative. The path is given by
/// the pieces between its slashes; it holds no backslash, and no colon behind its first character, as
/// systems differ in what those mean.
pub proof fn law_key_is_the_names(all: Seq<Seq<char>>, path: &str, res: Result<String, Error>)
    requires
        are_pieces_of(all, path@),
        !path@.contains('\\'),
        path@.len() >= 2 ==> path@[1] != ':',
        call_ensures(path_to_key, (path,), res),
    ensures
        is_result_of_pieces(res, all),
        (forall|i: int| 0 <= i < all.len() ==> (#[trigger] all[i]).len() > 0 && all[i] != seq!['.']
            && all[i] != seq!['.', '.']) ==> (res matches Ok(key) && key@ == path@),
{
    lemma_result_of_pieces(res, all, path@);
    if forall|i: int| 0 <= i < all.len() ==> (#[trigger] all[i]).len() > 0 && all[i] != seq!['.']
        && all[i] != seq!['.', '.'] {
        lemma_all_name(all);
        if all.contains(seq!['.', '.']) {
            assert(all[all.index_of(seq!['.', '.'])] == seq!['.', '.']);
        }
    }
}

/// What is returned for a path that every system reads in the same way.
pub proof fn lemma_result_of_pieces(
    res: Result<String, Error>,
    all: Seq<Seq<char>>,
    path: Seq<char>,
)
    requires
        are_pieces_of(all, path),
        !path.contains('\\'),
        path.len() >= 2 ==> path[1] != ':',
        is_key_result(res, key_of(components(path))) || may_have_prefix(path) && res == Err::<
            String,
            Error,
        >(Error::PathNotRelative),
    ensures
        is_result_of_pieces(res, all),
{
    lemma_slashed_is_same(path);
    lemma_key_of_slashed_pieces(all);
}

/// A path with backslashes or with a colon behind its first character is read in one of the ways that
/// systems have: by its slashes alone, by its slashes and backslashes, or as one with a prefix, which
/// is not relative. The pieces between its slashes are given, and those between its slashes and
/// backslashes.
pub proof fn law_key_by_one_reading(
    all: Seq<Seq<char>>,
    finer: Seq<Seq<char>>,
    path: &str,
    with_slashes: Seq<char>,
    res: Result<String, Error>,
)
    requires
        are_pieces_of(all, path@),
        with_slashes.len() == path@.len(),
        forall|i: int|
            0 <= i < path@.len() ==> #[trigger] with_slashes[i] == if path@[i] == '\\' {
                '/'
            } else {
                path@[i]
            },
        are_pieces_of(finer, with_slashes),
        call_ensures(path_to_key, (path,), res),
    ensures
        ({
            ||| is_result_of_pieces(res, all)
            ||| is_result_of_pieces(res, finer)
            ||| res == Err::<String, Error>(Error::PathNotRelative) && path@.len() >= 2 && (path@[1]
                == ':' || with_slashes[0] == '/' && with_slashes[1] == '/')
        }),
{
    assert(with_slashes =~= slashed(path@));
    lemma_key_of_slashed_pieces(all);
    lemma_key_of_slashed_pieces(finer);
}

/// No key leads anywhere but down: whatever path it was made of, between its slashes are names, and
/// neither nothing nor dots that stand for a directory, unless the key is empty.
pub proof fn law_key_leads_down(path: &str, key: String, all: Seq<Seq<char>>, i: int)
    requires
        call_ensures(path_to_key, (path,), Ok(key)),
        are_pieces_of(all, key@),
        key@.len() > 0,
        0 <= i < all.len(),
    ensures
        all[i].len() > 0,
        all[i] != seq!['.'],
        all[i] != seq!['.', '.'],
{
    lemma_pieces_of_any(all);
    assert(is_name(pieces(key@)[i]));
}

/// The key of a path that is given by the pieces between its slashes.
proof fn lemma_key_of_slashed_pieces(all: Seq<Seq<char>>)
    requires
        all.len() > 0,
        forall|i: int| 0 <= i < all.len() ==> !(#[trigger] all[i]).contains('/'),
    ensures
        if all.len() > 1 && all[0].len() == 0 {
            key_of(components(joined(all))) is NotRelative
        } else if all.contains(seq!['.', '.']) {
            key_of(components(joined(all))) is ParentDir
        } else {
            key_of(components(joined(all))) == Key::Made(joined(naming(all)))
        },
        all.len() == 1 || all[0].len() > 0 ==> !starts_at_root(joined(all)),
{
    lemma_pieces_of_any(all);
    lemma_key_of_pieces(all);
    let named = named_components(all);
    let parts = components(joined(all));
    if all.len() > 1 && all[0].len() == 0 {
        let front = parts.take(1);
        assert(front.drop_last() =~= Seq::<ComponentView>::empty());
        assert(front.last() == ComponentView::RootDir);
        assert(key_of(front) is NotRelative) by {
            reveal_with_fuel(key_of, 2);
        }
        lemma_refused(parts, 1);
    } else {
        if all[0].len() > 0 {
            assert(all[0].contains(all[0][0]));
        }
        if all[0] == seq!['.'] {
            let front = seq![ComponentView::CurDir];
            assert(front.drop_last() =~= Seq::<ComponentView>::empty());
            assert(key_of(front) == Key::Made(Seq::<char>::empty())) by {
                reveal_with_fuel(key_of, 2);
            }
            lemma_no_empty_names(all);
            lemma_key_of_both(front, named);
        } else {
            assert(parts =~= named);
        }
    }
}

/// Where every piece names something, all do.
proof fn lemma_all_name(all: Seq<Seq<char>>)
    requires
        forall|i: int| 0 <= i < all.len() ==> (#[trigger] all[i]).len() > 0 && all[i] != seq!['.'],
    ensures
        naming(all) == all,
    decreases all.len(),
{
    if all.len() > 0 {
        let earlier = all.drop_last();
        assert forall|i: int| 0 <= i < earlier.len() implies (#[trigger] earlier[i]).len() > 0
            && earlier[i] != seq!['.'] by {
            assert(earlier[i] == all[i]);
        }
        lemma_all_name(earlier);
        assert(all[all.len() - 1] == all.last());
        assert(naming(all) =~= all);
    } else {
        assert(naming(all) =~= all);
    }
}

} // verus!
