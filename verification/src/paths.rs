//! Paths as texts, read by the rules of the platform that the program is built
//! for. What the parts of a path are comes from `std::path`; equality, order,
//! file name and extension are computed here from the parts.

use std::path::{Component, Path, Prefix};

use vstd::prelude::*;

use crate::picking::{is_pick, lemma_pick_grows};
use crate::text::{
    after_last, chars_of, law_tail_follows_the_last, lower, same_but_case, same_ignoring_case,
    tail_after_last, text_view, views, CharClass,
};

verus! {

/// The sort of one part of a path, in the order in which parts compare.
#[derive(Clone, Copy, PartialEq, Eq, Structural)]
pub enum PartKind {
    Prefix,
    RootDir,
    CurDir,
    ParentDir,
    Normal,
}

/// One part of a path. Only a `Normal` part has a text; what a `Prefix` part
/// holds is a [`PathPrefix`].
pub struct PathPart {
    pub kind: PartKind,
    pub text: String,
}

/// The drive or share that a path starts with, in the order in which prefixes
/// compare. The letter of a disk is a capital.
pub enum PathPrefix {
    Verbatim(String),
    VerbatimUnc(String, String),
    VerbatimDisk(u8),
    DeviceNs(String),
    Unc(String, String),
    Disk(u8),
}

/// What a [`PathPart`] reads.
pub struct PartView {
    pub kind: PartKind,
    pub text: Seq<char>,
}

/// What a [`PathPrefix`] reads.
pub enum PrefixView {
    Verbatim(Seq<char>),
    VerbatimUnc(Seq<char>, Seq<char>),
    VerbatimDisk(u8),
    DeviceNs(Seq<char>),
    Unc(Seq<char>, Seq<char>),
    Disk(u8),
}

impl View for PathPart {
    type V = PartView;

    open spec fn view(&self) -> PartView {
        PartView { kind: self.kind, text: self.text@ }
    }
}

impl View for PathPrefix {
    type V = PrefixView;

    open spec fn view(&self) -> PrefixView {
        match self {
            PathPrefix::Verbatim(name) => PrefixView::Verbatim(name@),
            PathPrefix::VerbatimUnc(server, share) => PrefixView::VerbatimUnc(server@, share@),
            PathPrefix::VerbatimDisk(letter) => PrefixView::VerbatimDisk(*letter),
            PathPrefix::DeviceNs(name) => PrefixView::DeviceNs(name@),
            PathPrefix::Unc(server, share) => PrefixView::Unc(server@, share@),
            PathPrefix::Disk(letter) => PrefixView::Disk(*letter),
        }
    }
}

/// The parts that `Path::components` finds in a path.
pub uninterp spec fn path_parts(path: Seq<char>) -> Seq<PartView>;

/// The prefix that `PrefixComponent::kind` finds at the start of a path.
pub uninterp spec fn path_prefix(path: Seq<char>) -> Option<PrefixView>;

/// A name that is one component on every platform.
pub open spec fn plain_name(path: Seq<char>) -> bool {
    &&& path.len() > 0
    &&& !(path.len() == 1 && path[0] == '.')
    &&& !(path.len() == 2 && path[0] == '.' && path[1] == '.')
    &&& forall|i: int|
        0 <= i < path.len() ==> #[trigger] path[i] != '/' && path[i] != '\\' && path[i] != ':'
}

pub open spec fn part_views(parts: Seq<PathPart>) -> Seq<PartView> {
    Seq::new(parts.len(), |i: int| parts[i]@)
}

/// Calls `Path::components`: the parts of `path` in order, each by its kind,
/// and by its text where it is a normal one. A name without separators, colons
/// and dots-only forms is one normal part.
#[verifier::external_body]
fn components(path: &str) -> (parts: Vec<PathPart>)
    ensures
        part_views(parts@) == path_parts(path@),
        plain_name(path@) ==> part_views(parts@) == seq![
            PartView { kind: PartKind::Normal, text: path@ },
        ],
{
    let mut parts = Vec::new();
    for part in Path::new(path).components() {
        let (kind, text) = match part {
            Component::Prefix(_) => (PartKind::Prefix, None),
            Component::RootDir => (PartKind::RootDir, None),
            Component::CurDir => (PartKind::CurDir, None),
            Component::ParentDir => (PartKind::ParentDir, None),
            Component::Normal(name) => (PartKind::Normal, name.to_str()),
        };
        parts.push(PathPart { kind, text: text.unwrap_or_default().to_owned() });
    }
    parts
}

/// Calls `PrefixComponent::kind` on the first component of `path`: which sort
/// of prefix it is and what it holds; nothing where the path has no prefix, as
/// a name without separators and colons has none.
#[verifier::external_body]
fn prefix(path: &str) -> (found: Option<PathPrefix>)
    ensures
        match found {
            Some(prefix) => path_prefix(path@) == Some(prefix@),
            None => path_prefix(path@) is None,
        },
        plain_name(path@) ==> found is None,
{
    let Component::Prefix(prefix) = Path::new(path).components().next()? else { return None };
    Some(match prefix.kind() {
        Prefix::Verbatim(a) => PathPrefix::Verbatim(a.to_str()?.to_owned()),
        Prefix::VerbatimUNC(a, b) => {
            PathPrefix::VerbatimUnc(a.to_str()?.to_owned(), b.to_str()?.to_owned())
        }
        Prefix::VerbatimDisk(letter) => PathPrefix::VerbatimDisk(letter),
        Prefix::DeviceNS(a) => PathPrefix::DeviceNs(a.to_str()?.to_owned()),
        Prefix::UNC(a, b) => PathPrefix::Unc(a.to_str()?.to_owned(), b.to_str()?.to_owned()),
        Prefix::Disk(letter) => PathPrefix::Disk(letter),
    })
}

/// The final component of a path where it is a normal one.
pub open spec fn file_name_of(path: Seq<char>) -> Option<Seq<char>> {
    let parts = path_parts(path);
    if parts.len() > 0 && parts.last().kind == PartKind::Normal {
        Some(parts.last().text)
    } else {
        None
    }
}

/// The text after the last dot of a file name, unless the name has no dot but
/// perhaps one at its start.
pub open spec fn name_extension(name: Seq<char>) -> Option<Seq<char>> {
    let tail = after_last(name, CharClass::One('.'));
    if tail.len() + 1 < name.len() {
        Some(tail)
    } else {
        None
    }
}

/// The extension of the path's file name.
pub open spec fn extension_of(path: Seq<char>) -> Option<Seq<char>> {
    match file_name_of(path) {
        Some(name) => name_extension(name),
        None => None,
    }
}

/// Whether the extension of a file name is `wanted`, whatever the case of its
/// letters.
pub open spec fn ends_in(name: Seq<char>, wanted: Seq<char>) -> bool {
    match name_extension(name) {
        Some(extension) => same_but_case(extension, wanted),
        None => false,
    }
}

/// Whether the path's extension is `wanted`, whatever the case of its letters.
pub open spec fn has_extension(path: Seq<char>, wanted: Seq<char>) -> bool {
    match file_name_of(path) {
        Some(name) => ends_in(name, wanted),
        None => false,
    }
}

/// A `.lnk` file by its name.
pub open spec fn is_shortcut(path: Seq<char>) -> bool {
    has_extension(path, "lnk"@)
}

/// An `.exe` file by its name.
pub open spec fn is_executable(path: Seq<char>) -> bool {
    has_extension(path, "exe"@)
}

/// The final component of `path`, where it is a normal one. A plain name is its
/// own.
pub fn file_name(path: &str) -> (name: Option<String>)
    ensures
        text_view(name) == file_name_of(path@),
        plain_name(path@) ==> file_name_of(path@) == Some(path@),
{
    let mut parts = components(path);
    let ghost all = part_views(parts@);
    match parts.pop() {
        Some(part) => {
            assert(all.last() == part@);
            match part.kind {
                PartKind::Normal => Some(part.text),
                _ => None,
            }
        },
        None => None,
    }
}

/// The extension of a file name, without its dot.
pub fn extension_in(name: &str) -> (found: Option<String>)
    ensures
        text_view(found) == name_extension(name@),
{
    let tail = tail_after_last(name, CharClass::One('.'));
    let length = chars_of(name).len();
    let tail_length = chars_of(tail.as_str()).len();
    if tail_length < length && length - tail_length > 1 {
        Some(tail)
    } else {
        None
    }
}

/// Whether the extension of a file name is `wanted`, whatever the case of its
/// letters.
pub fn name_ends_in(name: &str, wanted: &str) -> (found: bool)
    ensures
        found == ends_in(name@, wanted@),
{
    match extension_in(name) {
        Some(text) => same_ignoring_case(text.as_str(), wanted),
        None => false,
    }
}

/// The extension of `path`, without its dot.
pub fn extension(path: &str) -> (found: Option<String>)
    ensures
        text_view(found) == extension_of(path@),
        plain_name(path@) ==> extension_of(path@) == name_extension(path@),
{
    match file_name(path) {
        Some(name) => extension_in(name.as_str()),
        None => None,
    }
}

fn extension_is(path: &str, wanted: &str) -> (found: bool)
    ensures
        found == has_extension(path@, wanted@),
        plain_name(path@) ==> file_name_of(path@) == Some(path@),
{
    match file_name(path) {
        Some(name) => name_ends_in(name.as_str(), wanted),
        None => false,
    }
}

/// Whether `path` names a shortcut. A plain name does by its own extension.
pub fn is_shortcut_file(path: &str) -> (found: bool)
    ensures
        found == is_shortcut(path@),
        plain_name(path@) ==> file_name_of(path@) == Some(path@) && found == ends_in(
            path@,
            "lnk"@,
        ),
{
    extension_is(path, "lnk")
}

/// Whether `path` names a program. A plain name does by its own extension.
pub fn is_executable_file(path: &str) -> (found: bool)
    ensures
        found == is_executable(path@),
        plain_name(path@) ==> file_name_of(path@) == Some(path@) && found == ends_in(
            path@,
            "exe"@,
        ),
{
    extension_is(path, "exe")
}

/// One element of what a path is compared by.
pub struct KeyItem {
    pub rank: u8,
    pub text: Vec<char>,
}

/// What a [`KeyItem`] reads.
pub struct KeyView {
    pub rank: u8,
    pub text: Seq<char>,
}

impl View for KeyItem {
    type V = KeyView;

    open spec fn view(&self) -> KeyView {
        KeyView { rank: self.rank, text: self.text@ }
    }
}

pub open spec fn key_views(items: Seq<KeyItem>) -> Seq<KeyView> {
    Seq::new(items.len(), |i: int| items[i]@)
}

pub open spec fn part_rank(kind: PartKind) -> u8 {
    match kind {
        PartKind::Prefix => 0,
        PartKind::RootDir => 6,
        PartKind::CurDir => 7,
        PartKind::ParentDir => 8,
        PartKind::Normal => 9,
    }
}

/// The key of a prefix by its rank, its texts and its letter.
pub open spec fn prefix_items(
    rank: u8,
    first: Seq<char>,
    second: Seq<char>,
    letter: u8,
) -> Seq<KeyView> {
    seq![
        KeyView { rank, text: first },
        KeyView { rank: 0, text: second },
        KeyView { rank: letter, text: Seq::empty() },
    ]
}

/// What a prefix contributes to the key of a path.
pub open spec fn prefix_key(prefix: Option<PrefixView>) -> Seq<KeyView> {
    match prefix {
        Some(PrefixView::Verbatim(name)) => prefix_items(0, name, Seq::empty(), 0),
        Some(PrefixView::VerbatimUnc(server, share)) => prefix_items(1, server, share, 0),
        Some(PrefixView::VerbatimDisk(letter)) => prefix_items(
            2,
            Seq::empty(),
            Seq::empty(),
            letter,
        ),
        Some(PrefixView::DeviceNs(name)) => prefix_items(3, name, Seq::empty(), 0),
        Some(PrefixView::Unc(server, share)) => prefix_items(4, server, share, 0),
        Some(PrefixView::Disk(letter)) => prefix_items(5, Seq::empty(), Seq::empty(), letter),
        None => Seq::empty(),
    }
}

/// What the parts contribute to the key of a path: all but the prefix.
pub open spec fn parts_key(parts: Seq<PartView>) -> Seq<KeyView>
    decreases parts.len(),
{
    if parts.len() == 0 {
        Seq::empty()
    } else {
        let before = parts_key(parts.drop_last());
        let part = parts.last();
        if part.kind == PartKind::Prefix {
            before
        } else {
            before.push(KeyView { rank: part_rank(part.kind), text: part.text })
        }
    }
}

/// What a path is compared by: its prefix, then its components.
#[verifier::opaque]
pub open spec fn path_key(path: Seq<char>) -> Seq<KeyView> {
    prefix_key(path_prefix(path)) + parts_key(path_parts(path))
}

/// Whether the two texts name the same path: the same prefix and components.
pub open spec fn same_path(a: Seq<char>, b: Seq<char>) -> bool {
    path_key(a) == path_key(b)
}

/// How two texts compare, character by character: -1, 0 or 1.
pub open spec fn text_order(a: Seq<char>, b: Seq<char>) -> int
    decreases a.len(),
{
    if a.len() == 0 && b.len() == 0 {
        0
    } else if a.len() == 0 {
        -1
    } else if b.len() == 0 {
        1
    } else if a[0] < b[0] {
        -1
    } else if b[0] < a[0] {
        1
    } else {
        text_order(a.drop_first(), b.drop_first())
    }
}

/// How two elements of keys compare: by rank, then by text.
pub open spec fn item_order(a: KeyView, b: KeyView) -> int {
    if a.rank < b.rank {
        -1
    } else if b.rank < a.rank {
        1
    } else {
        text_order(a.text, b.text)
    }
}

/// How two keys compare, element by element: -1, 0 or 1.
pub open spec fn key_order(a: Seq<KeyView>, b: Seq<KeyView>) -> int
    decreases a.len(),
{
    if a.len() == 0 && b.len() == 0 {
        0
    } else if a.len() == 0 {
        -1
    } else if b.len() == 0 {
        1
    } else if item_order(a[0], b[0]) != 0 {
        item_order(a[0], b[0])
    } else {
        key_order(a.drop_first(), b.drop_first())
    }
}

/// How two paths compare: -1, 0 or 1.
#[verifier::opaque]
pub open spec fn path_order(a: Seq<char>, b: Seq<char>) -> int {
    key_order(path_key(a), path_key(b))
}

proof fn lemma_text_order(a: Seq<char>, b: Seq<char>, c: Seq<char>)
    ensures
        -1 <= text_order(a, b) <= 1,
        text_order(a, b) == 0 <==> a == b,
        text_order(a, b) == -text_order(b, a),
        text_order(a, b) <= 0 && text_order(b, c) <= 0 ==> text_order(a, c) <= 0,
    decreases a.len(),
{
    if a.len() == 0 || b.len() == 0 {
        if a.len() == 0 && b.len() == 0 {
            assert(a =~= b);
        }
    } else if a[0] == b[0] {
        lemma_text_order(a.drop_first(), b.drop_first(), c.drop_first());
        if a.drop_first() == b.drop_first() {
            assert(a =~= seq![a[0]] + a.drop_first());
            assert(b =~= seq![b[0]] + b.drop_first());
        }
    }
}

proof fn lemma_item_order(a: KeyView, b: KeyView, c: KeyView)
    ensures
        -1 <= item_order(a, b) <= 1,
        item_order(a, b) == 0 <==> a == b,
        item_order(a, b) == -item_order(b, a),
        item_order(a, b) <= 0 && item_order(b, c) <= 0 ==> item_order(a, c) <= 0,
{
    lemma_text_order(a.text, b.text, c.text);
}

pub proof fn lemma_key_order(a: Seq<KeyView>, b: Seq<KeyView>, c: Seq<KeyView>)
    ensures
        -1 <= key_order(a, b) <= 1,
        key_order(a, b) == 0 <==> a == b,
        key_order(a, b) == -key_order(b, a),
        key_order(a, b) <= 0 && key_order(b, c) <= 0 ==> key_order(a, c) <= 0,
    decreases a.len(),
{
    if a.len() == 0 || b.len() == 0 {
        if a.len() == 0 && b.len() == 0 {
            assert(a =~= b);
        }
    } else {
        let c0 = if c.len() > 0 { c[0] } else { b[0] };
        lemma_item_order(a[0], b[0], c0);
        lemma_item_order(b[0], c0, a[0]);
        lemma_item_order(c0, a[0], b[0]);
        lemma_key_order(a.drop_first(), b.drop_first(), c.drop_first());
        if a[0] == b[0] && a.drop_first() == b.drop_first() {
            assert(a =~= seq![a[0]] + a.drop_first());
            assert(b =~= seq![b[0]] + b.drop_first());
        }
    }
}

/// Paths are ordered totally, and two of them compare equal exactly where they
/// are the same path.
pub proof fn law_paths_are_ordered(a: Seq<char>, b: Seq<char>, c: Seq<char>)
    ensures
        path_order(a, b) == 0 <==> same_path(a, b),
        path_order(a, b) == -path_order(b, a),
        path_order(a, b) <= 0 && path_order(b, c) <= 0 ==> path_order(a, c) <= 0,
        path_order(a, b) <= 0 || path_order(b, a) <= 0,
{
    reveal(path_order);
    lemma_key_order(path_key(a), path_key(b), path_key(c));
}

fn prefix_list(rank: u8, first: Vec<char>, second: Vec<char>, letter: u8) -> (key: Vec<KeyItem>)
    ensures
        key_views(key@) == prefix_items(rank, first@, second@, letter),
{
    let ghost expected = prefix_items(rank, first@, second@, letter);
    let mut key: Vec<KeyItem> = Vec::new();
    key.push(KeyItem { rank, text: first });
    key.push(KeyItem { rank: 0, text: second });
    key.push(KeyItem { rank: letter, text: Vec::new() });
    assert(key_views(key@) =~= expected);
    key
}

/// What a plain name is compared by.
pub open spec fn plain_key(name: Seq<char>) -> Seq<KeyView> {
    seq![KeyView { rank: part_rank(PartKind::Normal), text: name }]
}

/// The key that `path` is compared by.
pub fn key_of(path: &str) -> (key: Vec<KeyItem>)
    ensures
        key_views(key@) == path_key(path@),
        plain_name(path@) ==> path_key(path@) == plain_key(path@),
{
    let mut key: Vec<KeyItem> = match prefix(path) {
        Some(PathPrefix::Verbatim(name)) => prefix_list(0, chars_of(name.as_str()), Vec::new(), 0),
        Some(PathPrefix::VerbatimUnc(server, share)) => {
            prefix_list(1, chars_of(server.as_str()), chars_of(share.as_str()), 0)
        },
        Some(PathPrefix::VerbatimDisk(letter)) => prefix_list(2, Vec::new(), Vec::new(), letter),
        Some(PathPrefix::DeviceNs(name)) => prefix_list(3, chars_of(name.as_str()), Vec::new(), 0),
        Some(PathPrefix::Unc(server, share)) => {
            prefix_list(4, chars_of(server.as_str()), chars_of(share.as_str()), 0)
        },
        Some(PathPrefix::Disk(letter)) => prefix_list(5, Vec::new(), Vec::new(), letter),
        None => Vec::new(),
    };
    let ghost start = prefix_key(path_prefix(path@));
    assert(key_views(key@) =~= start);
    let parts = components(path);
    let ghost all = path_parts(path@);
    let mut i: usize = 0;
    while i < parts.len()
        invariant
            i <= parts@.len(),
            all == part_views(parts@),
            key_views(key@) == start + parts_key(all.take(i as int)),
        decreases parts@.len() - i,
    {
        let ghost before = key_views(key@);
        proof {
            assert(all.take(i + 1).drop_last() =~= all.take(i as int));
            assert(all.take(i + 1).last() == parts@[i as int]@);
        }
        let rank: Option<u8> = match parts[i].kind {
            PartKind::Prefix => None,
            PartKind::RootDir => Some(6),
            PartKind::CurDir => Some(7),
            PartKind::ParentDir => Some(8),
            PartKind::Normal => Some(9),
        };
        match rank {
            Some(rank) => {
                key.push(KeyItem { rank, text: chars_of(parts[i].text.as_str()) });
                assert(key_views(key@) =~= before.push(
                    KeyView { rank, text: parts@[i as int].text@ },
                ));
            },
            None => {},
        }
        i = i + 1;
        assert(key_views(key@) =~= start + parts_key(all.take(i as int)));
    }
    assert(all.take(i as int) =~= all);
    reveal(path_key);
    proof {
        if plain_name(path@) {
            assert(all.drop_last() =~= Seq::<PartView>::empty());
            assert(parts_key(all.drop_last()) =~= Seq::<KeyView>::empty());
            assert(start + parts_key(all) =~= plain_key(path@));
        }
    }
    key
}

fn order_texts(a: &Vec<char>, b: &Vec<char>) -> (order: i8)
    ensures
        order == text_order(a@, b@),
{
    let mut i: usize = 0;
    assert(a@.skip(0) =~= a@);
    assert(b@.skip(0) =~= b@);
    while i < a.len() && i < b.len()
        invariant
            i <= a@.len(),
            i <= b@.len(),
            text_order(a@, b@) == text_order(a@.skip(i as int), b@.skip(i as int)),
        decreases a@.len() - i,
    {
        if a[i] < b[i] {
            return -1;
        }
        if b[i] < a[i] {
            return 1;
        }
        assert(a@.skip(i as int).drop_first() =~= a@.skip(i + 1));
        assert(b@.skip(i as int).drop_first() =~= b@.skip(i + 1));
        i = i + 1;
    }
    if i < b.len() {
        -1
    } else if i < a.len() {
        1
    } else {
        0
    }
}

fn order_keys(a: &Vec<KeyItem>, b: &Vec<KeyItem>) -> (order: i8)
    ensures
        order == key_order(key_views(a@), key_views(b@)),
{
    let ghost left = key_views(a@);
    let ghost right = key_views(b@);
    let mut i: usize = 0;
    assert(left.skip(0) =~= left);
    assert(right.skip(0) =~= right);
    while i < a.len() && i < b.len()
        invariant
            i <= a@.len(),
            i <= b@.len(),
            left == key_views(a@),
            right == key_views(b@),
            key_order(left, right) == key_order(left.skip(i as int), right.skip(i as int)),
        decreases a@.len() - i,
    {
        if a[i].rank < b[i].rank {
            return -1;
        }
        if b[i].rank < a[i].rank {
            return 1;
        }
        let order: i8 = order_texts(&a[i].text, &b[i].text);
        if order != 0 {
            return order;
        }
        assert(left.skip(i as int).drop_first() =~= left.skip(i + 1));
        assert(right.skip(i as int).drop_first() =~= right.skip(i + 1));
        i = i + 1;
    }
    if i < b.len() {
        -1
    } else if i < a.len() {
        1
    } else {
        0
    }
}

/// How two paths compare: -1, 0 or 1.
pub fn order_paths(a: &str, b: &str) -> (order: i8)
    ensures
        order == path_order(a@, b@),
        plain_name(a@) && plain_name(b@) ==> order == key_order(plain_key(a@), plain_key(b@)) && (
        same_path(a@, b@) <==> a@ == b@),
{
    reveal(path_order);
    let left = key_of(a);
    let right = key_of(b);
    proof {
        if plain_name(a@) && plain_name(b@) && same_path(a@, b@) {
            assert(plain_key(a@)[0].text == plain_key(b@)[0].text);
        }
    }
    order_keys(&left, &right)
}

/// Whether the two texts name the same path.
pub fn is_same_path(a: &str, b: &str) -> (same: bool)
    ensures
        same == same_path(a@, b@),
        plain_name(a@) && plain_name(b@) ==> same == (a@ == b@),
{
    proof {
        law_paths_are_ordered(a@, b@, b@);
    }
    order_paths(a, b) == 0
}

/// Whether some text of `list` is the path `path`.
pub open spec fn lists_path(list: Seq<Seq<char>>, path: Seq<char>) -> bool {
    exists|i: int| 0 <= i < list.len() && same_path(#[trigger] list[i], path)
}

/// Whether some text of `list` is the path `path`.
pub fn is_listed(list: &Vec<String>, path: &str) -> (found: bool)
    ensures
        found == lists_path(views(list@), path@),
{
    let ghost all = views(list@);
    let mut i: usize = 0;
    while i < list.len()
        invariant
            i <= list@.len(),
            all == views(list@),
            forall|j: int| 0 <= j < i ==> !same_path(#[trigger] all[j], path@),
        decreases list@.len() - i,
    {
        if is_same_path(list[i].as_str(), path) {
            assert(same_path(all[i as int], path@));
            return true;
        }
        i = i + 1;
    }
    false
}

/// What `Path::join` gives.
pub uninterp spec fn joined_path(base: Seq<char>, name: Seq<char>) -> Seq<char>;

/// What `Path::parent` gives.
pub uninterp spec fn parent_path(path: Seq<char>) -> Option<Seq<char>>;

/// Calls `Path::join`: `name` placed under `base`, with the separator of the
/// platform that the program is built for.
#[verifier::external_body]
pub(crate) fn join(base: &str, name: &str) -> (path: String)
    ensures
        path@ == joined_path(base@, name@),
{
    Path::new(base).join(name).to_string_lossy().into_owned()
}

/// Calls `Path::parent`: the path without its final component, where it has
/// one.
#[verifier::external_body]
pub(crate) fn parent(path: &str) -> (found: Option<String>)
    ensures
        match found {
            Some(text) => parent_path(path@) == Some(text@),
            None => parent_path(path@) is None,
        },
{
    Path::new(path).parent().map(|parent| parent.to_string_lossy().into_owned())
}

/// The extension of a name is what follows its last dot. A name without a dot has
/// none, nor has one whose only dot is at its start.
pub proof fn law_extension_follows_the_last_dot(stem: Seq<char>, extension: Seq<char>)
    requires
        !extension.contains('.'),
    ensures
        stem.len() > 0 ==> name_extension(stem + seq!['.'] + extension) == Some(extension),
        name_extension(seq!['.'] + extension) is None,
        name_extension(extension) is None,
{
    lemma_dot_before(stem, extension);
    lemma_dot_before(Seq::empty(), extension);
    assert(Seq::<char>::empty() + seq!['.'] + extension =~= seq!['.'] + extension);
    let dot = CharClass::One('.');
    law_tail_follows_the_last(extension, dot);
    let from = extension.len() - after_last(extension, dot).len();
    if from > 0 {
        assert(extension.contains(extension[from - 1]));
    }
}

proof fn lemma_dot_before(stem: Seq<char>, extension: Seq<char>)
    requires
        !extension.contains('.'),
    ensures
        after_last(stem + seq!['.'] + extension, CharClass::One('.')) == extension,
{
    let dot = CharClass::One('.');
    let name = stem + seq!['.'] + extension;
    law_tail_follows_the_last(name, dot);
    let tail = after_last(name, dot);
    let from = name.len() - tail.len();
    let wanted = stem.len() + 1;
    if from < wanted {
        assert(tail[wanted - 1 - from] == name[wanted - 1]);
    } else if from > wanted {
        assert(name[from - 1] == extension[from - 1 - wanted]);
        assert(extension.contains(extension[from - 1 - wanted]));
    }
    assert(tail =~= extension);
}

/// A path names a shortcut where its file name ends in `.lnk`, and a program where
/// it ends in `.exe`, in letters of either case, with something before the dot.
pub proof fn law_shortcuts_and_programs_by_name(
    path: Seq<char>,
    stem: Seq<char>,
    extension: Seq<char>,
)
    requires
        stem.len() > 0,
        !extension.contains('.'),
        file_name_of(path) == Some(stem + seq!['.'] + extension),
    ensures
        is_shortcut(path) <==> lower(extension) == seq!['l', 'n', 'k'],
        is_executable(path) <==> lower(extension) == seq!['e', 'x', 'e'],
        extension_of(path) == Some(extension),
{
    law_extension_follows_the_last_dot(stem, extension);
    reveal_strlit("lnk");
    reveal_strlit("exe");
    assert("lnk"@ =~= seq!['l', 'n', 'k']);
    assert("exe"@ =~= seq!['e', 'x', 'e']);
    assert(lower("lnk"@) =~= seq!['l', 'n', 'k']);
    assert(lower("exe"@) =~= seq!['e', 'x', 'e']);
}

/// A path without a file name, or with one that has no extension, is neither a
/// shortcut nor a program.
pub proof fn law_other_paths_are_neither(path: Seq<char>)
    requires
        file_name_of(path) matches Some(name) ==> name_extension(name) is None,
    ensures
        !is_shortcut(path),
        !is_executable(path),
        extension_of(path) is None,
{
}

/// The file name of a path is its last part, where that is a normal one.
pub proof fn law_file_name_is_the_last_part(path: Seq<char>)
    ensures
        file_name_of(path) is Some <==> path_parts(path).len() > 0 && path_parts(
            path,
        )[path_parts(path).len() - 1].kind == PartKind::Normal,
        file_name_of(path) matches Some(name) ==> name == path_parts(path)[path_parts(path).len()
            - 1].text,
{
}

/// Texts are ordered as in a dictionary: by the first character in which they
/// differ, and a text before every longer one that starts with it.
pub proof fn law_texts_are_ordered_like_words(
    start: Seq<char>,
    a: char,
    b: char,
    more: Seq<char>,
    other: Seq<char>,
)
    ensures
        a < b ==> text_order(start + seq![a] + more, start + seq![b] + other) == -1,
        text_order(start, start + seq![a] + more) == -1,
        text_order(start, start) == 0,
    decreases start.len(),
{
    let left = start + seq![a] + more;
    let right = start + seq![b] + other;
    if start.len() > 0 {
        let rest = start.drop_first();
        law_texts_are_ordered_like_words(rest, a, b, more, other);
        assert(left.drop_first() =~= rest + seq![a] + more);
        assert(right.drop_first() =~= rest + seq![b] + other);
        assert(left[0] == start[0] && right[0] == start[0]);
    } else {
        assert(left[0] == a && right[0] == b);
    }
}

/// Paths are ordered by the first part in which they differ, and a path before
/// everything that lies below it.
pub proof fn law_paths_are_ordered_by_their_parts(
    start: Seq<KeyView>,
    a: KeyView,
    b: KeyView,
    more: Seq<KeyView>,
    other: Seq<KeyView>,
)
    ensures
        a.rank < b.rank || a.rank == b.rank && text_order(a.text, b.text) == -1 ==> key_order(
            start + seq![a] + more,
            start + seq![b] + other,
        ) == -1,
        key_order(start, start + seq![a] + more) == -1,
    decreases start.len(),
{
    let left = start + seq![a] + more;
    let right = start + seq![b] + other;
    if start.len() > 0 {
        let rest = start.drop_first();
        law_paths_are_ordered_by_their_parts(rest, a, b, more, other);
        lemma_item_order(start[0], start[0], start[0]);
        assert(left.drop_first() =~= rest + seq![a] + more);
        assert(right.drop_first() =~= rest + seq![b] + other);
        assert(left[0] == start[0] && right[0] == start[0]);
    } else {
        assert(left[0] == a && right[0] == b);
    }
}

/// What a path is compared by: after its prefix come all its other parts, in their
/// order, each by its sort and with its text as it is.
pub proof fn law_parts_make_the_key(parts: Seq<PartView>)
    ensures
        is_pick(
            parts_key(parts),
            parts.len(),
            |k: int| parts[k].kind != PartKind::Prefix,
            |k: int| KeyView { rank: part_rank(parts[k].kind), text: parts[k].text },
        ),
    decreases parts.len(),
{
    if parts.len() > 0 {
        let front = parts.drop_last();
        law_parts_make_the_key(front);
        lemma_pick_grows(
            parts_key(front),
            |k: int| front[k].kind != PartKind::Prefix,
            |k: int| KeyView { rank: part_rank(front[k].kind), text: front[k].text },
            parts_key(parts),
            parts.len(),
            |k: int| parts[k].kind != PartKind::Prefix,
            |k: int| KeyView { rank: part_rank(parts[k].kind), text: parts[k].text },
        );
    }
}

/// The sorts of parts are told apart, and ordered: a root before a dot, that before
/// two dots, and those before a name. Prefixes come before all of them, and are told
/// apart and ordered by their sort: verbatim ones first, a plain drive last.
pub proof fn law_sorts_of_parts_are_ordered(
    name: Seq<char>,
    server: Seq<char>,
    share: Seq<char>,
    letter: u8,
    other: u8,
)
    ensures
        part_rank(PartKind::RootDir) < part_rank(PartKind::CurDir) < part_rank(PartKind::ParentDir)
            < part_rank(PartKind::Normal),
        ({
            let ranks = seq![
                prefix_key(Some(PrefixView::Verbatim(name)))[0].rank,
                prefix_key(Some(PrefixView::VerbatimUnc(server, share)))[0].rank,
                prefix_key(Some(PrefixView::VerbatimDisk(letter)))[0].rank,
                prefix_key(Some(PrefixView::DeviceNs(name)))[0].rank,
                prefix_key(Some(PrefixView::Unc(server, share)))[0].rank,
                prefix_key(Some(PrefixView::Disk(letter)))[0].rank,
                part_rank(PartKind::RootDir),
            ];
            forall|i: int, j: int| 0 <= i < j < 7 ==> #[trigger] ranks[i] < #[trigger] ranks[j]
        }),
        prefix_key(Some(PrefixView::Disk(letter))) == prefix_key(Some(PrefixView::Disk(other)))
            <==> letter == other,
        prefix_key(Some(PrefixView::Unc(server, share)))[0].text == server,
        prefix_key(Some(PrefixView::Unc(server, share)))[1].text == share,
        prefix_key(Some(PrefixView::Verbatim(name)))[0].text == name,
        prefix_key(Some(PrefixView::DeviceNs(name)))[0].text == name,
        prefix_key(Some(PrefixView::VerbatimUnc(server, share)))[0].text == server,
        prefix_key(Some(PrefixView::VerbatimUnc(server, share)))[1].text == share,
        prefix_key(Some(PrefixView::VerbatimDisk(letter))) == prefix_key(
            Some(PrefixView::VerbatimDisk(other)),
        ) <==> letter == other,
        prefix_key(None).len() == 0,
{
    let verbatim = prefix_key(Some(PrefixView::VerbatimDisk(letter)));
    let another = prefix_key(Some(PrefixView::VerbatimDisk(other)));
    assert(verbatim[2].rank == letter && another[2].rank == other);
    let a = prefix_key(Some(PrefixView::Disk(letter)));
    let b = prefix_key(Some(PrefixView::Disk(other)));
    assert(a[2].rank == letter && b[2].rank == other);
}

/// Two texts with the same prefix and the same parts are the same path.
pub proof fn law_same_parts_are_the_same_path(a: Seq<char>, b: Seq<char>)
    requires
        path_prefix(a) == path_prefix(b),
        path_parts(a) == path_parts(b),
    ensures
        same_path(a, b),
        path_order(a, b) == 0,
        path_key(a) == prefix_key(path_prefix(a)) + parts_key(path_parts(a)),
{
    reveal(path_key);
    law_paths_are_ordered(a, b, a);
}

/// A list names a path where one of its texts is that path, and in no other case.
pub proof fn law_lists_name_their_paths(list: Seq<Seq<char>>, path: Seq<char>, i: int)
    ensures
        0 <= i < list.len() && same_path(list[i], path) ==> lists_path(list, path),
        (forall|k: int| 0 <= k < list.len() ==> !same_path(#[trigger] list[k], path))
            ==> !lists_path(list, path),
{
}

} // verus!
