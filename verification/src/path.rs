//! Virtual paths: how they are written, which mount owns them and what a directory lists.
use vstd::prelude::*;
use vstd::string::*;

use crate::table::same;
use crate::text::{
    ends_with, law_trims_both_ends, law_trims_the_end, law_trims_the_front, lemma_split_first,
    lemma_stripped, lemma_without_leading, skip, split, split_text, starts_with, stripped, trim,
    trim_end, trim_start, without_leading, without_trailing, CharClass,
};

verus! {

/// The path of the virtual root.
pub open spec fn root() -> Seq<char> {
    seq!['/']
}

/// A path in its normal form: absolute, no trailing slash, the root being `/`.
pub open spec fn normalized(path: Seq<char>) -> Seq<char> {
    root() + stripped(path, CharClass::Slash)
}

/// Whether the mount at `mount` owns a path in normal form: the two are equal, or the path is
/// nested under the mount.
pub open spec fn owns(mount: Seq<char>, path: Seq<char>) -> bool {
    path == mount || mount.push('/').is_prefix_of(path)
}

/// A path that the mount at `mount` owns, relative to the mount's own root. A trailing slash of
/// the path is kept.
pub open spec fn relative(mount: Seq<char>, path: Seq<char>) -> Seq<char> {
    let rest = without_leading(normalized(path).skip(mount.len() as int), CharClass::Slash);
    if path.len() > 0 && path.last() == '/' && rest.len() > 0 && rest.last() != '/' {
        rest.push('/')
    } else {
        rest
    }
}

/// The virtual path of the entry that the mount at `mount` lists as `entry`.
pub open spec fn rebased(mount: Seq<char>, entry: Seq<char>) -> Seq<char> {
    without_trailing(mount, CharClass::Slash).push('/') + without_leading(entry, CharClass::Slash)
}

/// What the paths under the directory at `path` start with.
pub open spec fn child_prefix(path: Seq<char>) -> Seq<char> {
    if normalized(path) == root() {
        root()
    } else {
        normalized(path).push('/')
    }
}

/// The name that the directory at `path` lists for a mount at `mount`: the segment after the
/// directory's own path, if the mount lies under the directory.
pub open spec fn child_name(mount: Seq<char>, path: Seq<char>) -> Option<Seq<char>> {
    let prefix = child_prefix(path);
    if prefix.is_prefix_of(mount) && mount.len() > prefix.len() {
        Some(split(mount.skip(prefix.len() as int), '/')[0])
    } else {
        None
    }
}

/// The path of the entry `name` in the listing of the virtual directory at `path`.
pub open spec fn virtual_entry(path: Seq<char>, name: Seq<char>) -> Seq<char> {
    if normalized(path) == root() {
        name.push('/')
    } else {
        without_leading(normalized(path), CharClass::Slash).push('/') + name.push('/')
    }
}

/// Brings a path into its normal form.
pub fn normalize(path: &str) -> (r: String)
    ensures
        r@ == normalized(path@),
{
    let trimmed = trim(path, CharClass::Slash);
    let mut r = "/".to_owned();
    proof {
        reveal_strlit("/");
        assert("/"@ =~= root());
    }
    r.append(trimmed.as_str());
    r
}

/// Tells whether the mount at `mount` owns a path in normal form.
pub fn is_owner(mount: &str, path: &str) -> (r: bool)
    ensures
        r == owns(mount@, path@),
{
    let mut nested = mount.to_owned();
    nested.append("/");
    proof {
        reveal_strlit("/");
        assert(nested@ =~= mount@.push('/'));
    }
    same(path, mount) || starts_with(path, nested.as_str())
}

/// Makes a path relative to the mount that owns it.
pub fn relative_to(mount: &str, path: &str) -> (r: String)
    requires
        owns(mount@, normalized(path@)),
    ensures
        r@ == relative(mount@, path@),
{
    let normal = normalize(path);
    let n: usize = mount.unicode_len();
    let rest = skip(normal.as_str(), n);
    let mut rel = trim_start(rest.as_str(), CharClass::Slash);
    if ends_with(path, '/') && !rel.as_str().is_empty() && !ends_with(rel.as_str(), '/') {
        let ghost before = rel@;
        rel.append("/");
        proof {
            reveal_strlit("/");
            assert(rel@ =~= before.push('/'));
        }
    }
    rel
}

/// The virtual path of the entry that the mount at `mount` lists as `entry`.
pub fn rebase(mount: &str, entry: &str) -> (r: String)
    ensures
        r@ == rebased(mount@, entry@),
{
    let mut r = trim_end(mount, CharClass::Slash);
    let ghost before = r@;
    r.append("/");
    proof {
        reveal_strlit("/");
        assert(r@ =~= before.push('/'));
    }
    let rest = trim_start(entry, CharClass::Slash);
    r.append(rest.as_str());
    r
}

/// Tells whether a path in normal form is that of the root.
fn is_root(path: &str) -> (r: bool)
    ensures
        r == (path@ == root()),
{
    proof {
        reveal_strlit("/");
        assert("/"@ =~= root());
    }
    same(path, "/")
}

/// The name that the directory at `path` lists for a mount at `mount`.
pub fn name_under(mount: &str, path: &str) -> (r: Option<String>)
    ensures
        match r {
            Some(name) => child_name(mount@, path@) == Some(name@),
            None => child_name(mount@, path@) is None,
        },
{
    let mut prefix = normalize(path);
    if !is_root(prefix.as_str()) {
        let ghost before = prefix@;
        prefix.append("/");
        proof {
            reveal_strlit("/");
            assert(prefix@ =~= before.push('/'));
        }
    }
    if !starts_with(mount, prefix.as_str()) {
        return None;
    }
    let n: usize = prefix.as_str().unicode_len();
    let rest = skip(mount, n);
    if rest.as_str().is_empty() {
        return None;
    }
    let parts = split_text(rest.as_str(), '/');
    proof {
        assert(crate::text::views(parts@)[0] == parts@[0]@);
    }
    Some(parts[0].clone())
}

/// The path of the entry `name` in the listing of the virtual directory at `path`.
pub fn entry_path(path: &str, name: &str) -> (r: String)
    ensures
        r@ == virtual_entry(path@, name@),
{
    let normal = normalize(path);
    proof {
        reveal_strlit("/");
    }
    if is_root(normal.as_str()) {
        let mut r = name.to_owned();
        r.append("/");
        proof {
            assert(r@ =~= virtual_entry(path@, name@));
        }
        r
    } else {
        let mut r = trim_start(normal.as_str(), CharClass::Slash);
        r.append("/");
        r.append(name);
        r.append("/");
        proof {
            assert(r@ =~= virtual_entry(path@, name@));
        }
        r
    }
}

/// A normal form is absolute and ends in no slash unless it is the root, and it is its own
/// normal form.
pub proof fn law_normal_form(path: Seq<char>)
    ensures
        normalized(path).first() == '/',
        normalized(path) != root() ==> normalized(path).last() != '/',
        normalized(normalized(path)) == normalized(path),
{
    let t = stripped(path, CharClass::Slash);
    let n = normalized(path);
    lemma_stripped(path, CharClass::Slash);
    reveal_with_fuel(without_leading, 2);
    assert(n.first() == '/');
    assert(n.drop_first() =~= t);
    if t.len() == 0 {
        assert(n =~= root());
        assert(stripped(n, CharClass::Slash) =~= t);
    } else {
        assert(n.last() == t.last());
    }
}

/// A trailing slash, or one in front, makes no difference to which path is meant.
pub proof fn law_outer_slashes_ignored(path: Seq<char>)
    ensures
        normalized(path.push('/')) == normalized(path),
        normalized(root() + path) == normalized(path),
{
    assert((root() + path).drop_first() =~= path);
    assert(without_leading(root() + path, CharClass::Slash) == without_leading(
        path,
        CharClass::Slash,
    ));
    lemma_push_slash(path);
}

proof fn lemma_push_slash(path: Seq<char>)
    ensures
        stripped(path.push('/'), CharClass::Slash) == stripped(path, CharClass::Slash),
    decreases path.len(),
{
    let s = path.push('/');
    if path.len() == 0 {
        assert(path =~= Seq::<char>::empty());
        assert(s.drop_first() =~= Seq::<char>::empty());
        assert(without_leading(s.drop_first(), CharClass::Slash) =~= Seq::<char>::empty());
    } else if path.first() == '/' {
        assert(s.drop_first() =~= path.drop_first().push('/'));
        lemma_push_slash(path.drop_first());
    } else {
        assert(s.drop_last() =~= path);
    }
}

/// Of the mounts of one length at most one owns a path: the longest owner is unique.
pub proof fn law_owner_unique(a: Seq<char>, b: Seq<char>, path: Seq<char>)
    requires
        owns(a, path),
        owns(b, path),
        a.len() == b.len(),
    ensures
        a == b,
{
    lemma_owner_is_prefix(a, path);
    lemma_owner_is_prefix(b, path);
}

/// An owner is what the path starts with.
pub proof fn lemma_owner_is_prefix(mount: Seq<char>, path: Seq<char>)
    requires
        owns(mount, path),
    ensures
        mount.len() <= path.len(),
        mount == path.take(mount.len() as int),
{
    if path == mount {
        assert(path.take(path.len() as int) =~= path);
    } else {
        let m = mount.push('/');
        assert(m == path.subrange(0, m.len() as int));
        assert forall|i: int| 0 <= i < mount.len() implies mount[i] == path[i] by {
            assert(m[i] == path.subrange(0, m.len() as int)[i]);
        }
        assert(mount =~= path.take(mount.len() as int));
    }
}

/// Whether a path is one that something can be mounted at: in normal form and not the root.
pub open spec fn mountable(mount: Seq<char>) -> bool {
    mount == normalized(mount) && mount != root()
}

/// A path that can be mounted at is a slash before text with no slash at either end.
pub proof fn lemma_mountable(mount: Seq<char>)
    requires
        mountable(mount),
    ensures
        mount.len() >= 2,
        mount.first() == '/',
        mount[1] != '/',
        mount.last() != '/',
        without_trailing(mount, CharClass::Slash) == mount,
{
    let t = stripped(mount, CharClass::Slash);
    lemma_stripped(mount, CharClass::Slash);
    assert(mount == root() + t);
    if t.len() == 0 {
        assert(mount =~= root());
    }
    assert(mount[1] == t[0]);
    assert(mount.last() == t.last());
}

/// Whether the last two characters of a path are slashes.
pub open spec fn ends_in_two_slashes(path: Seq<char>) -> bool {
    path.len() >= 2 && path.last() == '/' && path[path.len() - 2] == '/'
}

/// What a mount lists can be asked for again under the listed path: the mount owns that path,
/// and relative to the mount it is the listed entry. Entries that end in two slashes are left
/// out: of these only one slash is kept.
pub proof fn law_listed_entry_resolves(mount: Seq<char>, entry: Seq<char>)
    requires
        mountable(mount),
        !ends_in_two_slashes(without_leading(entry, CharClass::Slash)),
    ensures
        owns(mount, normalized(rebased(mount, entry))),
        relative(mount, rebased(mount, entry)) == without_leading(entry, CharClass::Slash),
{
    let slash = CharClass::Slash;
    let t = without_leading(entry, slash);
    lemma_without_leading(entry, slash);
    lemma_mountable(mount);
    reveal_with_fuel(without_leading, 2);
    let p = rebased(mount, entry);
    assert(p == mount.push('/') + t);
    let body = p.drop_first();
    assert(body.first() == mount[1]);
    assert(without_leading(p, slash) == body);
    reveal_with_fuel(without_trailing, 2);
    if t.len() == 0 {
        assert(p =~= mount.push('/'));
        assert(body.drop_last() =~= mount.drop_first());
        assert(mount.drop_first().last() == mount.last());
        assert(normalized(p) =~= mount);
        assert(normalized(p).skip(mount.len() as int) =~= Seq::<char>::empty());
        assert(without_leading(Seq::<char>::empty(), slash) =~= Seq::<char>::empty());
        assert(relative(mount, p) =~= t);
    } else {
        assert(body.last() == t.last());
        assert(p.last() == t.last());
        let kept = if t.last() == '/' {
            t.drop_last()
        } else {
            t
        };
        if t.last() == '/' {
            assert(t.len() >= 2);
            assert(body.drop_last().last() == t[t.len() - 2]);
            assert(body.drop_last() =~= mount.drop_first().push('/') + kept);
            assert(stripped(p, slash) == body.drop_last());
        } else {
            assert(stripped(p, slash) == body);
            assert(body =~= mount.drop_first().push('/') + kept);
        }
        let n = normalized(p);
        assert(n =~= mount.push('/') + kept);
        assert(mount.push('/') =~= n.subrange(0, mount.len() as int + 1));
        let rest = n.skip(mount.len() as int);
        assert(rest =~= root() + kept);
        assert(rest.drop_first() =~= kept);
        assert(kept.first() == t.first());
        assert(without_leading(rest, slash) == kept);
        assert(kept.last() != '/');
        if t.last() == '/' {
            assert(kept.push('/') =~= t);
        }
    }
}

/// A path that is made relative to its mount and then put back under the mount is the same path
/// again. Paths with a second slash right behind the mount are left out: it is dropped.
pub proof fn law_relative_rebases_back(mount: Seq<char>, path: Seq<char>)
    requires
        mountable(mount),
        owns(mount, normalized(path)),
        normalized(path).len() > mount.len() + 1 ==> normalized(path)[mount.len() as int + 1] != '/',
    ensures
        normalized(rebased(mount, relative(mount, path))) == normalized(path),
{
    let slash = CharClass::Slash;
    let n = normalized(path);
    law_normal_form(path);
    lemma_mountable(mount);
    lemma_owner_is_prefix(mount, n);
    let after = n.skip(mount.len() as int);
    let rest = without_leading(after, slash);
    let rel = relative(mount, path);
    reveal_with_fuel(without_leading, 2);
    assert(without_leading(rel, slash) == rel) by {
        lemma_without_leading(after, slash);
        if rest.len() > 0 {
            assert(rel.first() == rest.first());
        }
    }
    assert(rebased(mount, rel) == mount.push('/') + rel);
    law_outer_slashes_ignored(mount);
    if n == mount {
        assert(after =~= Seq::<char>::empty());
        assert(rest =~= Seq::<char>::empty());
        assert(mount.push('/') + rel =~= mount.push('/'));
    } else {
        let m = mount.push('/');
        assert(m == n.subrange(0, m.len() as int));
        assert(n[mount.len() as int] == '/') by {
            assert(m[mount.len() as int] == n.subrange(0, m.len() as int)[mount.len() as int]);
        }
        assert(after.first() == '/');
        let kept = n.skip(mount.len() as int + 1);
        assert(after.drop_first() =~= kept);
        assert(kept.len() > 0) by {
            assert(n.last() != '/' || n == root());
            assert(n.len() >= 2);
        }
        assert(kept.first() == n[mount.len() as int + 1]);
        assert(rest == kept);
        assert(m + kept =~= n);
        if rel != rest {
            assert(m + rel =~= n.push('/'));
            law_outer_slashes_ignored(n);
        } else {
            assert(m + rel == n);
        }
    }
}

/// A directory lists the next segment of the path of each mount that lies under it.
pub proof fn law_ancestor_lists_mount(path: Seq<char>, segment: Seq<char>, rest: Seq<char>)
    requires
        segment.len() > 0,
        !segment.contains('/'),
        rest.len() > 0 ==> rest.first() == '/',
    ensures
        child_name(child_prefix(path) + (segment + rest), path) == Some(segment),
{
    let prefix = child_prefix(path);
    let mount = prefix + (segment + rest);
    assert(prefix =~= mount.subrange(0, prefix.len() as int));
    assert(mount.skip(prefix.len() as int) =~= segment + rest);
    lemma_split_first(segment, rest, '/');
}

/// No directory lists a name for the mount that owns it.
pub proof fn law_owner_not_listed(mount: Seq<char>, path: Seq<char>)
    requires
        owns(mount, normalized(path)),
    ensures
        child_name(mount, path) is None,
{
    lemma_owner_is_prefix(mount, normalized(path));
    if normalized(path) == root() && mount.len() > 1 {
        assert(root().len() == 1);
    }
}

/// The normal form of a path is a slash and the path without the slashes at its two ends, however
/// many these are.
pub proof fn law_normal_form_is_one_slash(front: Seq<char>, core: Seq<char>, back: Seq<char>)
    requires
        forall|i: int| 0 <= i < front.len() ==> #[trigger] front[i] == '/',
        forall|i: int| 0 <= i < back.len() ==> #[trigger] back[i] == '/',
        core.len() > 0 ==> core[0] != '/' && core[core.len() - 1] != '/',
    ensures
        normalized(front + core + back) == seq!['/'] + core,
        root() == seq!['/'],
{
    law_trims_both_ends(front, core, back, CharClass::Slash);
}

/// Every path is slashes, then text with a slash at neither end, then slashes.
pub proof fn law_every_path_has_a_core(path: Seq<char>) -> (parts: (Seq<char>, Seq<char>, Seq<char>))
    ensures
        path == parts.0 + parts.1 + parts.2,
        forall|i: int| 0 <= i < parts.0.len() ==> #[trigger] parts.0[i] == '/',
        forall|i: int| 0 <= i < parts.2.len() ==> #[trigger] parts.2[i] == '/',
        parts.1.len() > 0 ==> parts.1[0] != '/' && parts.1[parts.1.len() - 1] != '/',
        normalized(path) == seq!['/'] + parts.1,
    decreases path.len(),
{
    let none = Seq::<char>::empty();
    let parts = if path.len() == 0 {
        (none, none, none)
    } else if path[0] == '/' {
        let (front, core, back) = law_every_path_has_a_core(path.skip(1));
        assert(path =~= seq!['/'] + path.skip(1));
        assert(path =~= (seq!['/'] + front) + core + back);
        (seq!['/'] + front, core, back)
    } else if path[path.len() - 1] == '/' {
        let (front, core, back) = law_every_path_has_a_core(path.take(path.len() - 1));
        assert(path =~= path.take(path.len() - 1).push('/'));
        assert(path =~= front + core + back.push('/'));
        (front, core, back.push('/'))
    } else {
        (none, path, none)
    };
    assert(path =~= parts.0 + parts.1 + parts.2);
    law_normal_form_is_one_slash(parts.0, parts.1, parts.2);
    parts
}

/// A mount owns its own path and what goes on behind it with a slash, and nothing else.
pub proof fn law_owner_ends_at_a_slash(mount: Seq<char>, path: Seq<char>)
    ensures
        owns(mount, path) <==> path == mount || (path.len() > mount.len() && path[mount.len() as int]
            == '/' && path.take(mount.len() as int) == mount),
{
    let m = mount.push('/');
    if owns(mount, path) && path != mount {
        lemma_owner_is_prefix(mount, path);
        assert(m[mount.len() as int] == path.subrange(0, m.len() as int)[mount.len() as int]);
    }
    if path.len() > mount.len() && path[mount.len() as int] == '/' && path.take(mount.len() as int)
        == mount {
        assert forall|i: int| 0 <= i < mount.len() implies mount[i] == path[i] by {
            assert(path.take(mount.len() as int)[i] == path[i]);
        }
        assert(m =~= path.subrange(0, m.len() as int));
    }
}

/// The path of what lies in a mount, relative to the mount, is what stands behind the mount's own
/// path and the slashes there. It ends in a slash exactly if the path as it was asked for does,
/// and then in one; slashes in front make no difference.
pub proof fn law_relative_is_what_follows(
    front: Seq<char>,
    own: Seq<char>,
    between: Seq<char>,
    inner: Seq<char>,
    back: Seq<char>,
)
    requires
        forall|i: int| 0 <= i < front.len() ==> #[trigger] front[i] == '/',
        forall|i: int| 0 <= i < between.len() ==> #[trigger] between[i] == '/',
        forall|i: int| 0 <= i < back.len() ==> #[trigger] back[i] == '/',
        own.len() > 0,
        own[0] != '/',
        own[own.len() - 1] != '/',
        between.len() > 0,
        inner.len() > 0,
        inner[0] != '/',
        inner[inner.len() - 1] != '/',
    ensures
        owns(seq!['/'] + own, normalized(front + own + between + inner + back)),
        relative(seq!['/'] + own, front + own + between + inner + back) == (if back.len() == 0 {
            inner
        } else {
            inner + seq!['/']
        }),
{
    let slash = CharClass::Slash;
    let mount = seq!['/'] + own;
    let path = front + own + between + inner + back;
    let core = own + between + inner;
    assert(path =~= front + core + back);
    law_normal_form_is_one_slash(front, core, back);
    let n = normalized(path);
    assert(n == seq!['/'] + core);
    law_owner_ends_at_a_slash(mount, n);
    assert(n[mount.len() as int] == between[0]);
    assert(n.take(mount.len() as int) =~= mount);
    assert(n.skip(mount.len() as int) =~= between + inner);
    law_trims_the_front(between, inner, slash);
    if back.len() > 0 {
        assert(path.last() == back[back.len() - 1]);
        assert(inner.push('/') =~= inner + seq!['/']);
    } else {
        assert(path.last() == inner[inner.len() - 1]);
    }
}

/// The path of a mount itself is nothing, relative to the mount, however many slashes stand
/// before and behind it.
pub proof fn law_relative_of_the_mount_is_empty(
    front: Seq<char>,
    own: Seq<char>,
    back: Seq<char>,
)
    requires
        forall|i: int| 0 <= i < front.len() ==> #[trigger] front[i] == '/',
        forall|i: int| 0 <= i < back.len() ==> #[trigger] back[i] == '/',
        own.len() > 0,
        own[0] != '/',
        own[own.len() - 1] != '/',
    ensures
        owns(seq!['/'] + own, normalized(front + own + back)),
        relative(seq!['/'] + own, front + own + back).len() == 0,
{
    let mount = seq!['/'] + own;
    law_normal_form_is_one_slash(front, own, back);
    let n = normalized(front + own + back);
    assert(n.skip(mount.len() as int) =~= Seq::<char>::empty());
}

/// A relative path starts with no slash, and it ends in one exactly if it is not empty and the
/// path as it was asked for ends in one. A slash in front of the path makes no difference to it.
pub proof fn law_trailing_slash_is_kept(mount: Seq<char>, path: Seq<char>)
    requires
        mount.len() >= 2,
        mount[0] == '/',
        mount[1] != '/',
        mount[mount.len() - 1] != '/',
        owns(mount, normalized(path)),
    ensures
        relative(mount, path).len() > 0 ==> {
            &&& relative(mount, path)[0] != '/'
            &&& relative(mount, path)[relative(mount, path).len() - 1] == '/' <==> path.len() > 0
                && path[path.len() - 1] == '/'
        },
        relative(mount, seq!['/'] + path) == relative(mount, path),
        relative(mount, path).len() == 0 <==> normalized(path) == mount,
{
    let slash = CharClass::Slash;
    let n = normalized(path);
    law_normal_form(path);
    lemma_owner_is_prefix(mount, n);
    law_owner_ends_at_a_slash(mount, n);
    let after = n.skip(mount.len() as int);
    let rest = without_leading(after, slash);
    lemma_without_leading(after, slash);
    assert(n != root());
    law_outer_slashes_ignored(path);
    assert(root() + path == seq!['/'] + path);
    if n == mount {
        assert(after =~= Seq::<char>::empty());
    } else {
        assert(after.last() == n.last());
        if rest.len() == 0 {
            lemma_all_trimmed(after, slash);
            assert(slash.has(after[after.len() - 1]));
        }
        assert(rest.last() == after.last());
        assert(relative(mount, path).first() == rest.first());
        if path.len() == 0 {
            assert(n =~= root());
        }
        assert((seq!['/'] + path).last() == path.last());
    }
}

/// Where nothing is left after trimming at the front, everything was of the class.
proof fn lemma_all_trimmed(s: Seq<char>, class: CharClass)
    requires
        without_leading(s, class).len() == 0,
    ensures
        forall|i: int| 0 <= i < s.len() ==> class.has(#[trigger] s[i]),
    decreases s.len(),
{
    if s.len() > 0 {
        lemma_all_trimmed(s.drop_first(), class);
        assert forall|i: int| 0 <= i < s.len() implies class.has(#[trigger] s[i]) by {
            if i > 0 {
                assert(s.drop_first()[i - 1] == s[i]);
            }
        }
    }
}

/// An entry that a mount lists is put behind the mount's path with one slash between the two,
/// whatever slashes the path ends in or the entry starts with.
pub proof fn law_rebased_with_one_slash(
    own: Seq<char>,
    back: Seq<char>,
    front: Seq<char>,
    entry: Seq<char>,
)
    requires
        forall|i: int| 0 <= i < back.len() ==> #[trigger] back[i] == '/',
        forall|i: int| 0 <= i < front.len() ==> #[trigger] front[i] == '/',
        own.len() > 0 ==> own[own.len() - 1] != '/',
        entry.len() > 0 ==> entry[0] != '/',
    ensures
        rebased(own + back, front + entry) == own + seq!['/'] + entry,
{
    law_trims_the_end(own, back, CharClass::Slash);
    law_trims_the_front(front, entry, CharClass::Slash);
    assert(own.push('/') =~= own + seq!['/']);
}

/// A directory lists for a mount under it the segment that follows the directory's own path, and
/// for a mount that is not under it nothing. Under the root is every mount.
pub proof fn law_lists_the_next_segment(
    front: Seq<char>,
    own: Seq<char>,
    back: Seq<char>,
    segment: Seq<char>,
    rest: Seq<char>,
    mount: Seq<char>,
)
    requires
        forall|i: int| 0 <= i < front.len() ==> #[trigger] front[i] == '/',
        forall|i: int| 0 <= i < back.len() ==> #[trigger] back[i] == '/',
        own.len() > 0 ==> own[0] != '/' && own[own.len() - 1] != '/',
        forall|i: int| 0 <= i < segment.len() ==> #[trigger] segment[i] != '/',
        rest.len() > 0 ==> rest[0] == '/',
        segment.len() + rest.len() > 0,
    ensures
        ({
            let path = front + own + back;
            let prefix = if own.len() == 0 {
                seq!['/']
            } else {
                seq!['/'] + own + seq!['/']
            };
            &&& child_prefix(path) == prefix
            &&& child_name(prefix + segment + rest, path) == Some(segment)
            &&& child_name(mount, path) is Some <==> mount.len() > prefix.len() && mount.take(
                prefix.len() as int,
            ) == prefix
        }),
{
    let path = front + own + back;
    law_normal_form_is_one_slash(front, own, back);
    let prefix = if own.len() == 0 {
        seq!['/']
    } else {
        seq!['/'] + own + seq!['/']
    };
    if own.len() == 0 {
        assert(seq!['/'] + own =~= seq!['/']);
    } else {
        assert((seq!['/'] + own).len() > 1);
        assert((seq!['/'] + own).push('/') =~= prefix);
    }
    let under = prefix + segment + rest;
    assert(prefix =~= under.subrange(0, prefix.len() as int));
    assert(under.skip(prefix.len() as int) =~= segment + rest);
    assert(!segment.contains('/'));
    lemma_split_first(segment, rest, '/');
    if mount.len() > prefix.len() {
        assert(mount.take(prefix.len() as int) =~= mount.subrange(0, prefix.len() as int));
    }
}

/// What a virtual directory lists is the directory's path without slashes at its ends, the name,
/// and a slash behind each.
pub proof fn law_virtual_entries_are_directories(
    front: Seq<char>,
    own: Seq<char>,
    back: Seq<char>,
    name: Seq<char>,
)
    requires
        forall|i: int| 0 <= i < front.len() ==> #[trigger] front[i] == '/',
        forall|i: int| 0 <= i < back.len() ==> #[trigger] back[i] == '/',
        own.len() > 0 ==> own[0] != '/' && own[own.len() - 1] != '/',
    ensures
        virtual_entry(front + own + back, name) == (if own.len() == 0 {
            name + seq!['/']
        } else {
            own + seq!['/'] + name + seq!['/']
        }),
{
    law_normal_form_is_one_slash(front, own, back);
    assert(name.push('/') =~= name + seq!['/']);
    if own.len() == 0 {
        assert(seq!['/'] + own =~= seq!['/']);
    } else {
        assert((seq!['/'] + own).len() > 1);
        law_trims_the_front(seq!['/'], own, CharClass::Slash);
        assert(own.push('/') + name.push('/') =~= own + seq!['/'] + name + seq!['/']);
    }
}

/// Something can be mounted at a path exactly if it is a slash before text that has a slash at
/// neither end.
pub proof fn law_what_can_be_mounted_at(mount: Seq<char>)
    ensures
        mountable(mount) <==> mount.len() >= 2 && mount[0] == '/' && mount[1] != '/' && mount[
            mount.len() - 1] != '/',
{
    if mountable(mount) {
        lemma_mountable(mount);
    }
    if mount.len() >= 2 && mount[0] == '/' && mount[1] != '/' && mount[mount.len() - 1] != '/' {
        let own = mount.skip(1);
        let none = Seq::<char>::empty();
        assert(seq!['/'] + own + none =~= mount);
        law_normal_form_is_one_slash(seq!['/'], own, none);
        assert(seq!['/'] + own =~= mount);
    }
}

} // verus!
