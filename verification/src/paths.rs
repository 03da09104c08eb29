//! Unix paths as text: joining, normal form, and containment by whole components.
use vstd::prelude::*;

use crate::text;

verus! {

/// Whether the path starts at the root.
pub open spec fn absolute(path: Seq<char>) -> bool {
    path.len() > 0 && path[0] == '/'
}

/// The names that are left once empty and `.` segments are skipped and every `..` has taken
/// the name before it away.
pub open spec fn resolve(segments: Seq<Seq<char>>) -> Seq<Seq<char>>
    decreases segments.len(),
{
    if segments.len() == 0 {
        Seq::empty()
    } else {
        let before = resolve(segments.drop_last());
        let last = segments.last();
        if last == Seq::<char>::empty() || last == seq!['.'] {
            before
        } else if last == seq!['.', '.'] {
            if before.len() == 0 {
                before
            } else {
                before.drop_last()
            }
        } else {
            before.push(last)
        }
    }
}

/// The names of a path in normal form.
pub open spec fn names(path: Seq<char>) -> Seq<Seq<char>> {
    resolve(text::split_on(path, '/'))
}

/// The text of a path with these names.
pub open spec fn path_text(rooted: bool, names: Seq<Seq<char>>) -> Seq<char> {
    if rooted {
        seq!['/'] + text::join(names, seq!['/'])
    } else {
        text::join(names, seq!['/'])
    }
}

/// The path in normal form: no empty, `.` or `..` segment.
pub open spec fn normal(path: Seq<char>) -> Seq<char> {
    path_text(absolute(path), names(path))
}

/// The path `other` as seen from `base`.
pub open spec fn joined(base: Seq<char>, other: Seq<char>) -> Seq<char> {
    if absolute(other) || base.len() == 0 {
        other
    } else if base.last() == '/' {
        base + other
    } else {
        base.push('/') + other
    }
}

/// The normal form of the path as seen from the current directory.
pub open spec fn absolute_form(path: Seq<char>, current_directory: Seq<char>) -> Seq<char> {
    normal(joined(current_directory, path))
}

/// Whether the first path is the second one or lies below it, both in normal form.
pub open spec fn under(path: Seq<char>, root: Seq<char>) -> bool {
    absolute(path) == absolute(root) && names(root).len() <= names(path).len() && names(path).take(
        names(root).len() as int,
    ) == names(root)
}

/// Whether the path is one of the roots or lies below one, as seen from the current directory.
pub open spec fn within(
    path: Seq<char>,
    roots: Seq<Seq<char>>,
    current_directory: Seq<char>,
) -> bool {
    exists|k: int|
        0 <= k < roots.len() && under(
            joined(current_directory, path),
            joined(current_directory, #[trigger] roots[k]),
        )
}

/// The last name of the path, where it ends in one.
pub open spec fn last_name(segments: Seq<Seq<char>>) -> Option<Seq<char>>
    decreases segments.len(),
{
    if segments.len() == 0 {
        None
    } else {
        let last = segments.last();
        if last == Seq::<char>::empty() || last == seq!['.'] {
            last_name(segments.drop_last())
        } else if last == seq!['.', '.'] {
            None
        } else {
            Some(last)
        }
    }
}

/// The final component of a path.
pub open spec fn base_name(path: Seq<char>) -> Option<Seq<char>> {
    last_name(text::split_on(path, '/'))
}

pub fn is_absolute(path: &str) -> (b: bool)
    ensures
        b == absolute(path@),
{
    let chars = text::chars_of(path);
    chars.len() > 0 && chars[0] == '/'
}

/// The kind of a path segment.
#[derive(Clone, Copy)]
enum Segment {
    Skipped,
    Parent,
    Name,
}

fn segment_kind(segment: &Vec<char>) -> (kind: Segment)
    ensures
        kind is Skipped <==> segment@ == Seq::<char>::empty() || segment@ == seq!['.'],
        kind is Parent <==> segment@ == seq!['.', '.'],
{
    if segment.len() == 0 {
        assert(segment@ =~= Seq::<char>::empty());
        Segment::Skipped
    } else if segment.len() == 1 && segment[0] == '.' {
        assert(segment@ =~= seq!['.']);
        Segment::Skipped
    } else if segment.len() == 2 && segment[0] == '.' && segment[1] == '.' {
        assert(segment@ =~= seq!['.', '.']);
        Segment::Parent
    } else {
        Segment::Name
    }
}

/// The names of a path in normal form.
pub fn path_names(path: &str) -> (out: Vec<String>)
    ensures
        text::texts(out@) == names(path@),
{
    let segments = text::split_chars(&text::chars_of(path), '/');
    let ghost all = text::split_on(path@, '/');
    let mut out: Vec<String> = Vec::new();
    let mut i: usize = 0;
    while i < segments.len()
        invariant
            i <= segments@.len() == all.len(),
            forall|k: int| 0 <= k < segments@.len() ==> (#[trigger] segments@[k])@ == all[k],
            text::texts(out@) == resolve(all.take(i as int)),
        decreases segments@.len() - i,
    {
        assert(all.take(i + 1).drop_last() =~= all.take(i as int));
        assert(all.take(i + 1).last() == segments@[i as int]@);
        match segment_kind(&segments[i]) {
            Segment::Skipped => {},
            Segment::Parent => {
                let ghost before = out@;
                if out.len() > 0 {
                    out.pop();
                    assert(text::texts(out@) =~= text::texts(before).drop_last());
                }
            },
            Segment::Name => {
                let ghost before = out@;
                out.push(text::collect(&segments[i]));
                assert(text::texts(out@) =~= text::texts(before).push(all[i as int]));
            },
        }
        i += 1;
    }
    assert(all.take(i as int) =~= all);
    out
}

/// The path in normal form.
pub fn normalize(path: &str) -> (out: String)
    ensures
        out@ == normal(path@),
{
    proof {
        reveal_strlit("/");
        assert("/"@ =~= seq!['/']);
    }
    let body = text::join_strings(&path_names(path), "/");
    if is_absolute(path) {
        let mut out = "/".to_owned();
        out.append(body.as_str());
        out
    } else {
        body
    }
}

/// The path `other` as seen from `base`.
pub fn join(base: &str, other: &str) -> (out: String)
    ensures
        out@ == joined(base@, other@),
{
    let head = text::chars_of(base);
    if is_absolute(other) || head.len() == 0 {
        other.to_owned()
    } else {
        let mut out = base.to_owned();
        if head[head.len() - 1] != '/' {
            out.push('/');
        }
        out.append(other);
        out
    }
}

/// The normal form of the path as seen from the current directory.
pub fn absolute_path(path: &str, current_directory: &str) -> (out: String)
    ensures
        out@ == absolute_form(path@, current_directory@),
{
    normalize(join(current_directory, path).as_str())
}

/// Whether the first path is the second one or lies below it, both in normal form.
pub fn is_under(path: &str, root: &str) -> (b: bool)
    ensures
        b == under(path@, root@),
{
    if is_absolute(path) != is_absolute(root) {
        return false;
    }
    let inner = path_names(path);
    let outer = path_names(root);
    if outer.len() > inner.len() {
        return false;
    }
    let ghost a = names(path@);
    let ghost b = names(root@);
    let mut i: usize = 0;
    while i < outer.len()
        invariant
            i <= outer@.len() <= inner@.len(),
            text::texts(inner@) == a,
            a == names(path@),
            text::texts(outer@) == b,
            b == names(root@),
            absolute(path@) == absolute(root@),
            a.take(i as int) == b.take(i as int),
        decreases outer@.len() - i,
    {
        assert(a[i as int] == inner@[i as int]@ && b[i as int] == outer@[i as int]@);
        if !text::same(inner[i].as_str(), outer[i].as_str()) {
            assert(a.take(b.len() as int)[i as int] != b[i as int]);
            return false;
        }
        assert(a.take(i + 1) =~= a.take(i as int).push(a[i as int]));
        assert(b.take(i + 1) =~= b.take(i as int).push(b[i as int]));
        i += 1;
    }
    assert(b.take(i as int) =~= b);
    true
}

/// Whether the path is one of the roots or lies below one, as seen from the current directory.
pub fn is_within(path: &str, roots: &Vec<String>, current_directory: &str) -> (b: bool)
    ensures
        b == within(path@, text::texts(roots@), current_directory@),
{
    let seen = join(current_directory, path);
    let ghost all = text::texts(roots@);
    let mut i: usize = 0;
    while i < roots.len()
        invariant
            i <= roots@.len() == all.len(),
            all == text::texts(roots@),
            seen@ == joined(current_directory@, path@),
            forall|k: int|
                0 <= k < i ==> !under(seen@, joined(current_directory@, #[trigger] all[k])),
        decreases roots@.len() - i,
    {
        let root = join(current_directory, roots[i].as_str());
        assert(all[i as int] == roots@[i as int]@);
        if is_under(seen.as_str(), root.as_str()) {
            return true;
        }
        i += 1;
    }
    false
}

/// The final component of a path.
pub fn file_name(path: &str) -> (name: Option<String>)
    ensures
        text::opt_text(name) == base_name(path@),
{
    let segments = text::split_chars(&text::chars_of(path), '/');
    let ghost all = text::split_on(path@, '/');
    let mut i: usize = segments.len();
    assert(all.take(i as int) =~= all);
    while i > 0
        invariant
            i <= segments@.len() == all.len(),
            all == text::split_on(path@, '/'),
            forall|k: int| 0 <= k < segments@.len() ==> (#[trigger] segments@[k])@ == all[k],
            last_name(all.take(i as int)) == last_name(all),
        decreases i,
    {
        i -= 1;
        assert(all.take(i + 1).drop_last() =~= all.take(i as int));
        assert(all.take(i + 1).last() == segments@[i as int]@);
        match segment_kind(&segments[i]) {
            Segment::Skipped => {},
            Segment::Parent => {
                return None;
            },
            Segment::Name => {
                return Some(text::collect(&segments[i]));
            },
        }
    }
    None
}

/// The last component of a path may be dropped to reach its parent: a path in normal form has
/// one where it has a name.
pub open spec fn parent_of(path: Seq<char>) -> Option<Seq<char>> {
    if names(path).len() == 0 {
        None
    } else {
        Some(path_text(absolute(path), names(path).drop_last()))
    }
}

/// The parent of a path in normal form.
pub fn parent(path: &str) -> (out: Option<String>)
    ensures
        text::opt_text(out) == parent_of(path@),
{
    let mut kept = path_names(path);
    let ghost before = kept@;
    if kept.len() == 0 {
        return None;
    }
    kept.pop();
    assert(text::texts(kept@) =~= text::texts(before).drop_last());
    proof {
        reveal_strlit("/");
        assert("/"@ =~= seq!['/']);
    }
    let body = text::join_strings(&kept, "/");
    if is_absolute(path) {
        let mut out = "/".to_owned();
        out.append(body.as_str());
        Some(out)
    } else {
        Some(body)
    }
}

/// The path without separators and `.` segments at its end.
pub open spec fn without_tail(path: Seq<char>) -> Seq<char>
    decreases path.len(),
{
    if path.len() > 1 && path.last() == '/' {
        without_tail(path.drop_last())
    } else if path.len() > 1 && path.last() == '.' && path[path.len() - 2] == '/' {
        without_tail(path.drop_last())
    } else {
        path
    }
}

/// The place of the last separator before `end`.
pub open spec fn last_separator(path: Seq<char>, end: int) -> Option<int>
    decreases end,
{
    if end <= 0 || end > path.len() {
        None
    } else if path[end - 1] == '/' {
        Some(end - 1)
    } else {
        last_separator(path, end - 1)
    }
}

/// The directory that a path names an entry of. None for the root and for the empty path.
pub open spec fn directory_of(path: Seq<char>) -> Option<Seq<char>> {
    let entry = without_tail(path);
    if entry.len() == 0 || entry == seq!['/'] {
        None
    } else {
        match last_separator(entry, entry.len() as int) {
            None => Some(Seq::empty()),
            Some(i) => if i == 0 {
                Some(seq!['/'])
            } else {
                Some(without_tail(entry.take(i)))
            },
        }
    }
}

fn tail_start(chars: &Vec<char>, end: usize) -> (start: usize)
    requires
        end <= chars@.len(),
    ensures
        start <= end,
        chars@.take(start as int) == without_tail(chars@.take(end as int)),
{
    let mut i: usize = end;
    while i > 1 && (chars[i - 1] == '/' || (chars[i - 1] == '.' && chars[i - 2] == '/'))
        invariant
            i <= end <= chars@.len(),
            without_tail(chars@.take(i as int)) == without_tail(chars@.take(end as int)),
        decreases i,
    {
        assert(chars@.take(i as int).drop_last() =~= chars@.take(i - 1));
        i -= 1;
    }
    i
}

/// The directory that a path names an entry of.
pub fn directory(path: &str) -> (out: Option<String>)
    ensures
        text::opt_text(out) == directory_of(path@),
{
    let chars = text::chars_of(path);
    let end = tail_start(&chars, chars.len());
    assert(chars@.take(chars@.len() as int) =~= path@);
    let ghost entry = chars@.take(end as int);
    if end == 0 || (end == 1 && chars[0] == '/') {
        assert(end == 1 ==> entry =~= seq!['/']);
        return None;
    }
    assert(end == 1 ==> entry[0] != '/');
    assert(entry != seq!['/']) by {
        if entry == seq!['/'] {
            assert(entry[0] == '/');
        }
    }
    let mut i: usize = end;
    while i > 0 && chars[i - 1] != '/'
        invariant
            i <= end <= chars@.len(),
            entry == chars@.take(end as int),
            last_separator(entry, end as int) == last_separator(entry, i as int),
        decreases i,
    {
        i -= 1;
    }
    if i == 0 {
        return Some(String::new());
    }
    if i == 1 {
        let mut root = String::new();
        root.push('/');
        assert(root@ =~= seq!['/']);
        return Some(root);
    }
    let cut = tail_start(&chars, i - 1);
    assert(entry.take(i - 1) =~= chars@.take(i - 1));
    let out = text::string_of(&chars, 0, cut);
    assert(out@ =~= chars@.take(cut as int));
    Some(out)
}

// ---------------------------------------------------------------------------------------------
// Laws
// ---------------------------------------------------------------------------------------------

/// Whether the text is a plain name: not empty, not `.` or `..`, and without a separator.
pub open spec fn plain_name(name: Seq<char>) -> bool {
    name.len() > 0 && name != seq!['.'] && name != seq!['.', '.'] && !name.contains('/')
}

proof fn lemma_split_parts_free(s: Seq<char>)
    ensures
        forall|k: int|
            0 <= k < text::split_on(s, '/').len() ==> !(#[trigger] text::split_on(
                s,
                '/',
            )[k]).contains('/'),
    decreases s.len(),
{
    text::lemma_split_on_some(s, '/');
    if s.len() > 0 {
        lemma_split_parts_free(s.drop_last());
        text::lemma_split_on_some(s.drop_last(), '/');
        let before = text::split_on(s.drop_last(), '/');
        let after = text::split_on(s, '/');
        assert forall|k: int| 0 <= k < after.len() implies !(#[trigger] after[k]).contains('/') by {
            if s.last() == '/' {
                if k < before.len() {
                    assert(after[k] == before[k]);
                } else {
                    assert(after[k] =~= Seq::<char>::empty());
                }
            } else if k < before.len() - 1 {
                assert(after[k] == before[k]);
            } else {
                assert(after[k] == before.last().push(s.last()));
                assert(!before[before.len() - 1].contains('/'));
                if after[k].contains('/') {
                    let j = choose|j: int| 0 <= j < after[k].len() && after[k][j] == '/';
                    assert(before.last()[j] == '/');
                }
            }
        }
    }
}

proof fn lemma_resolve_plain(segments: Seq<Seq<char>>)
    requires
        forall|k: int| 0 <= k < segments.len() ==> !(#[trigger] segments[k]).contains('/'),
    ensures
        forall|k: int| 0 <= k < resolve(segments).len() ==> plain_name(#[trigger] resolve(segments)[k]),
    decreases segments.len(),
{
    if segments.len() > 0 {
        assert forall|k: int| 0 <= k < segments.drop_last().len() implies !(
        #[trigger] segments.drop_last()[k]).contains('/') by {
            assert(segments.drop_last()[k] == segments[k]);
        }
        lemma_resolve_plain(segments.drop_last());
        assert(segments.last() == segments[segments.len() - 1]);
        if segments.last().len() == 0 {
            assert(segments.last() =~= Seq::<char>::empty());
        }
        let before = resolve(segments.drop_last());
        assert forall|k: int| 0 <= k < resolve(segments).len() implies plain_name(
            #[trigger] resolve(segments)[k],
        ) by {
            if k < before.len() {
                assert(resolve(segments)[k] == before[k]);
            }
        }
    }
}

proof fn lemma_resolve_of_plain(segments: Seq<Seq<char>>)
    requires
        forall|k: int| 0 <= k < segments.len() ==> plain_name(#[trigger] segments[k]),
    ensures
        resolve(segments) == segments,
    decreases segments.len(),
{
    if segments.len() > 0 {
        assert forall|k: int| 0 <= k < segments.drop_last().len() implies plain_name(
            #[trigger] segments.drop_last()[k],
        ) by {
            assert(segments.drop_last()[k] == segments[k]);
        }
        lemma_resolve_of_plain(segments.drop_last());
        assert(plain_name(segments[segments.len() - 1]));
        assert(resolve(segments) =~= segments);
    } else {
        assert(resolve(segments) =~= segments);
    }
}

proof fn lemma_split_add(a: Seq<char>, b: Seq<char>)
    requires
        !b.contains('/'),
    ensures
        ({
            let head = text::split_on(a, '/');
            text::split_on(a + b, '/') == head.drop_last().push(head.last() + b)
        }),
    decreases b.len(),
{
    let head = text::split_on(a, '/');
    text::lemma_split_on_some(a, '/');
    if b.len() == 0 {
        assert(a + b =~= a);
        assert(head.last() + b =~= head.last());
        assert(head.drop_last().push(head.last()) =~= head);
    } else {
        assert forall|i: int| 0 <= i < b.drop_last().len() implies b.drop_last()[i] != '/' by {
            assert(b.contains(b[i]));
        }
        lemma_split_add(a, b.drop_last());
        assert((a + b).drop_last() =~= a + b.drop_last());
        assert(b.contains(b.last()));
        let before = text::split_on(a + b.drop_last(), '/');
        assert((head.last() + b.drop_last()).push(b.last()) =~= head.last() + b);
        assert(text::split_on(a + b, '/') =~= head.drop_last().push(head.last() + b));
    }
}

proof fn lemma_split_join(parts: Seq<Seq<char>>)
    requires
        parts.len() > 0,
        forall|k: int| 0 <= k < parts.len() ==> !(#[trigger] parts[k]).contains('/'),
    ensures
        text::split_on(text::join(parts, seq!['/']), '/') == parts,
    decreases parts.len(),
{
    assert(text::split_on(Seq::<char>::empty(), '/') =~= seq![Seq::<char>::empty()]);
    if parts.len() == 1 {
        lemma_split_add(Seq::<char>::empty(), parts[0]);
        assert(Seq::<char>::empty() + parts[0] =~= parts[0]);
        assert(text::split_on(parts[0], '/') =~= parts);
    } else {
        let rest = parts.drop_last();
        assert forall|k: int| 0 <= k < rest.len() implies !(#[trigger] rest[k]).contains('/') by {
            assert(rest[k] == parts[k]);
        }
        lemma_split_join(rest);
        let a = text::join(rest, seq!['/']) + seq!['/'];
        assert(a.drop_last() =~= text::join(rest, seq!['/']));
        assert(text::split_on(a, '/') =~= rest.push(Seq::<char>::empty()));
        lemma_split_add(a, parts.last());
        assert(Seq::<char>::empty() + parts.last() =~= parts.last());
        assert(text::split_on(a + parts.last(), '/') =~= parts);
    }
}

/// The names of a path in normal form are plain.
pub proof fn law_names_are_plain(path: Seq<char>)
    ensures
        forall|k: int| 0 <= k < names(path).len() ==> plain_name(#[trigger] names(path)[k]),
{
    lemma_split_parts_free(path);
    lemma_resolve_plain(text::split_on(path, '/'));
}

/// A path built from plain names has exactly those names.
pub proof fn law_names_of_path_text(rooted: bool, parts: Seq<Seq<char>>)
    requires
        forall|k: int| 0 <= k < parts.len() ==> plain_name(#[trigger] parts[k]),
    ensures
        names(path_text(rooted, parts)) == parts,
        absolute(path_text(rooted, parts)) == rooted,
{
    let body = text::join(parts, seq!['/']);
    if parts.len() == 0 {
        assert(body =~= Seq::<char>::empty());
        assert(text::split_on(body, '/') =~= seq![Seq::<char>::empty()]);
        assert(resolve(seq![Seq::<char>::empty()]) =~= parts) by {
            assert(seq![Seq::<char>::empty()].drop_last() =~= Seq::<Seq<char>>::empty());
            assert(resolve(Seq::<Seq<char>>::empty()) =~= Seq::<Seq<char>>::empty());
            assert(parts =~= Seq::<Seq<char>>::empty());
        }
    } else {
        lemma_split_join(parts);
        lemma_resolve_of_plain(parts);
        lemma_join_first(parts);
    }
    if rooted {
        let full = seq!['/'] + body;
        lemma_split_leading(body);
        let split = text::split_on(full, '/');
        lemma_resolve_leading(text::split_on(body, '/'));
    }
}

proof fn lemma_join_first(parts: Seq<Seq<char>>)
    requires
        parts.len() > 0,
        parts[0].len() > 0,
    ensures
        text::join(parts, seq!['/']).len() > 0,
        text::join(parts, seq!['/'])[0] == parts[0][0],
        plain_name(parts[0]) ==> parts[0][0] != '/',
    decreases parts.len(),
{
    if plain_name(parts[0]) {
        assert(parts[0].contains(parts[0][0]));
    }
    if parts.len() > 1 {
        lemma_join_first(parts.drop_last());
    }
}

proof fn lemma_split_leading(body: Seq<char>)
    ensures
        text::split_on(seq!['/'] + body, '/') == seq![Seq::<char>::empty()] + text::split_on(
            body,
            '/',
        ),
    decreases body.len(),
{
    let full = seq!['/'] + body;
    text::lemma_split_on_some(body, '/');
    if body.len() == 0 {
        assert(full.drop_last() =~= Seq::<char>::empty());
        assert(text::split_on(Seq::<char>::empty(), '/') =~= seq![Seq::<char>::empty()]);
        assert(body =~= Seq::<char>::empty());
        assert(text::split_on(full, '/') =~= seq![Seq::<char>::empty()] + text::split_on(
            body,
            '/',
        ));
    } else {
        lemma_split_leading(body.drop_last());
        text::lemma_split_on_some(body.drop_last(), '/');
        assert(full.drop_last() =~= seq!['/'] + body.drop_last());
        assert(full.last() == body.last());
        let before = text::split_on(body.drop_last(), '/');
        let longer = seq![Seq::<char>::empty()] + before;
        assert(longer.drop_last() =~= seq![Seq::<char>::empty()] + before.drop_last());
        assert(longer.last() == before.last());
        assert(text::split_on(full, '/') =~= seq![Seq::<char>::empty()] + text::split_on(
            body,
            '/',
        ));
    }
}

proof fn lemma_resolve_leading(segments: Seq<Seq<char>>)
    ensures
        resolve(seq![Seq::<char>::empty()] + segments) == resolve(segments),
    decreases segments.len(),
{
    let longer = seq![Seq::<char>::empty()] + segments;
    if segments.len() == 0 {
        assert(longer.drop_last() =~= Seq::<Seq<char>>::empty());
        assert(longer.last() == Seq::<char>::empty());
        assert(segments =~= Seq::<Seq<char>>::empty());
        assert(resolve(segments) =~= Seq::<Seq<char>>::empty());
    } else {
        lemma_resolve_leading(segments.drop_last());
        assert(longer.drop_last() =~= seq![Seq::<char>::empty()] + segments.drop_last());
        assert(longer.last() == segments.last());
    }
}

/// Bringing a path into normal form twice is the same as doing it once, and its names stay.
pub proof fn law_normal_is_stable(path: Seq<char>)
    ensures
        normal(normal(path)) == normal(path),
        names(normal(path)) == names(path),
        absolute(normal(path)) == absolute(path),
{
    law_names_are_plain(path);
    law_names_of_path_text(absolute(path), names(path));
}

/// Every path lies within itself, and a path below a root that lies below another root lies
/// below the other root too.
pub proof fn law_under_is_an_order(a: Seq<char>, b: Seq<char>, c: Seq<char>)
    ensures
        under(a, a),
        under(a, b) && under(b, c) ==> under(a, c),
        under(a, b) && under(b, a) ==> names(a) == names(b) && absolute(a) == absolute(b),
{
    assert(names(a).take(names(a).len() as int) =~= names(a));
    if under(a, b) && under(b, c) {
        assert(names(a).take(names(c).len() as int) =~= names(a).take(
            names(b).len() as int,
        ).take(names(c).len() as int));
    }
}

/// Containment does not depend on how the paths are written: only normal forms count.
pub proof fn law_under_of_normal_forms(path: Seq<char>, root: Seq<char>)
    ensures
        under(normal(path), normal(root)) == under(path, root),
{
    law_normal_is_stable(path);
    law_normal_is_stable(root);
}

} // verus!
