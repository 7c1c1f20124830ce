//! Where a shortcut leads: a walk from shortcut to shortcut, whose links the
//! shell reads.

use vstd::prelude::*;

use crate::paths::{
    is_executable, is_executable_file, is_listed, is_shortcut, is_shortcut_file, lists_path,
    same_path,
};
use crate::text::{text_view, views};
use crate::wide::{
    before_zero, decode_lossy, decoded_lossy, law_decoding_undoes_encoding, law_units_end_at_zero,
    lemma_units_without_zero, text_units, until_zero,
};

verus! {

/// The most links that are followed.
pub const MAX_SHORTCUT_RESOLUTION_HOPS: usize = 4;

/// A walk that stands at a shortcut whose link is yet to be read.
pub struct ShortcutWalk {
    /// The shortcut to read.
    pub current: String,
    /// The shortcuts that were read before, in their order.
    pub visited: Vec<String>,
}

/// What a [`ShortcutWalk`] reads.
#[verifier::ext_equal]
pub struct WalkView {
    pub current: Seq<char>,
    pub visited: Seq<Seq<char>>,
}

impl View for ShortcutWalk {
    type V = WalkView;

    open spec fn view(&self) -> WalkView {
        WalkView { current: self.current@, visited: views(self.visited@) }
    }
}

/// How far the resolution of a shortcut has come.
pub enum Resolution {
    /// The link of the walk's current shortcut is to be read.
    Read(ShortcutWalk),
    /// The shortcut leads here.
    Found(String),
    /// The shortcut leads nowhere.
    Nothing,
}

/// What a [`Resolution`] reads.
pub enum ResolutionView {
    Read(WalkView),
    Found(Seq<char>),
    Nothing,
}

impl View for Resolution {
    type V = ResolutionView;

    open spec fn view(&self) -> ResolutionView {
        match self {
            Resolution::Read(walk) => ResolutionView::Read(walk@),
            Resolution::Found(path) => ResolutionView::Found(path@),
            Resolution::Nothing => ResolutionView::Nothing,
        }
    }
}

impl WalkView {
    /// A walk that may go on: it stands at a shortcut that it has not read, and
    /// has not used up its links.
    pub open spec fn wf(self) -> bool {
        &&& self.visited.len() < MAX_SHORTCUT_RESOLUTION_HOPS
        &&& is_shortcut(self.current)
        &&& !lists_path(self.visited, self.current)
        &&& forall|i: int| 0 <= i < self.visited.len() ==> is_shortcut(#[trigger] self.visited[i])
        &&& forall|i: int, j: int|
            0 <= i < j < self.visited.len() ==> !same_path(
                #[trigger] self.visited[i],
                #[trigger] self.visited[j],
            )
    }

    /// Where the walk stands after its current shortcut was found to lead to
    /// `link`.
    pub open spec fn after(self, link: Option<Seq<char>>) -> ResolutionView {
        match link {
            Some(target) => {
                let visited = self.visited.push(self.current);
                if !is_shortcut(target) {
                    ResolutionView::Found(target)
                } else if visited.len() < MAX_SHORTCUT_RESOLUTION_HOPS && !lists_path(
                    visited,
                    target,
                ) {
                    ResolutionView::Read(WalkView { current: target, visited })
                } else {
                    ResolutionView::Nothing
                }
            },
            None => ResolutionView::Nothing,
        }
    }
}

/// The first state of a resolution.
pub open spec fn resolution_start(shortcut: Seq<char>) -> ResolutionView {
    if is_shortcut(shortcut) {
        ResolutionView::Read(WalkView { current: shortcut, visited: Seq::empty() })
    } else {
        ResolutionView::Nothing
    }
}

/// Starts to resolve `shortcut`; what is no shortcut leads nowhere.
pub fn shortcut_target(shortcut: &str) -> (resolution: Resolution)
    ensures
        resolution@ == resolution_start(shortcut@),
        resolution matches Resolution::Read(walk) ==> walk@.wf(),
{
    if is_shortcut_file(shortcut) {
        let walk = ShortcutWalk { current: shortcut.to_owned(), visited: Vec::new() };
        assert(walk@.visited =~= Seq::<Seq<char>>::empty());
        Resolution::Read(walk)
    } else {
        Resolution::Nothing
    }
}

impl ShortcutWalk {
    /// Goes on after the current shortcut was read. `link` is what it leads to;
    /// nothing where it is no file or holds no link. The walk ends at the first
    /// target that is no shortcut, and gives up at a shortcut that it has read
    /// before and after [`MAX_SHORTCUT_RESOLUTION_HOPS`] links.
    pub fn follow(self, link: Option<String>) -> (resolution: Resolution)
        requires
            self@.wf(),
        ensures
            resolution@ == self@.after(text_view(link)),
            resolution matches Resolution::Read(walk) ==> walk@.wf() && walk@.visited.len()
                == self@.visited.len() + 1,
            resolution matches Resolution::Found(path) ==> !is_shortcut(path@),
    {
        let target = match link {
            Some(target) => target,
            None => {
                return Resolution::Nothing;
            },
        };
        if !is_shortcut_file(target.as_str()) {
            return Resolution::Found(target);
        }
        let ghost before = self@;
        let mut visited = self.visited;
        visited.push(self.current);
        let ghost list = before.visited.push(before.current);
        assert(views(visited@) =~= list);
        if visited.len() >= MAX_SHORTCUT_RESOLUTION_HOPS {
            return Resolution::Nothing;
        }
        if is_listed(&visited, target.as_str()) {
            return Resolution::Nothing;
        }
        let walk = ShortcutWalk { current: target, visited };
        proof {
            assert forall|i: int, j: int| 0 <= i < j < list.len() implies !same_path(
                #[trigger] list[i],
                #[trigger] list[j],
            ) by {
                if j == before.visited.len() {
                    assert(before.visited[i] == list[i]);
                    assert(!lists_path(before.visited, before.current));
                } else {
                    assert(before.visited[i] == list[i] && before.visited[j] == list[j]);
                }
            }
            assert forall|i: int| 0 <= i < list.len() implies is_shortcut(#[trigger] list[i]) by {
                if i < before.visited.len() {
                    assert(before.visited[i] == list[i]);
                }
            }
        }
        Resolution::Read(walk)
    }
}

/// The path that the shell wrote into a buffer: everything before the first 0.
/// Without a 0, or without anything before it, there is none.
pub open spec fn link_text(buffer: Seq<u16>) -> Option<Seq<char>> {
    let head = before_zero(buffer);
    if 0 < head.len() < buffer.len() {
        Some(decoded_lossy(head))
    } else {
        None
    }
}

/// The path that the shell wrote into a buffer.
pub fn link_target(buffer: &Vec<u16>) -> (link: Option<String>)
    ensures
        text_view(link) == link_text(buffer@),
{
    let head = until_zero(buffer);
    if head.len() == 0 || head.len() >= buffer.len() {
        None
    } else {
        Some(decode_lossy(&head))
    }
}

/// Where a walk ends on a disk whose links are `links`, step by step.
pub open spec fn walked(
    links: spec_fn(Seq<char>) -> Option<Seq<char>>,
    state: ResolutionView,
    steps: nat,
) -> Option<Seq<char>>
    decreases steps,
{
    match state {
        ResolutionView::Read(walk) => if steps == 0 {
            None
        } else {
            walked(links, walk.after(links(walk.current)), (steps - 1) as nat)
        },
        ResolutionView::Found(path) => Some(path),
        ResolutionView::Nothing => None,
    }
}

/// The path that is reached from `start` by following `count` links.
pub open spec fn reached(
    links: spec_fn(Seq<char>) -> Option<Seq<char>>,
    start: Seq<char>,
    count: nat,
) -> Option<Seq<char>>
    decreases count,
{
    if count == 0 {
        Some(start)
    } else {
        match reached(links, start, (count - 1) as nat) {
            Some(path) => links(path),
            None => None,
        }
    }
}

/// Whether `start` is a shortcut and the links lead from it, over different
/// shortcuts only, to `target`, which is none, in `count` steps.
pub open spec fn leads_to(
    links: spec_fn(Seq<char>) -> Option<Seq<char>>,
    start: Seq<char>,
    target: Seq<char>,
    count: nat,
) -> bool {
    &&& 1 <= count <= MAX_SHORTCUT_RESOLUTION_HOPS
    &&& reached(links, start, count) == Some(target)
    &&& !is_shortcut(target)
    &&& forall|i: nat|
        i < count ==> (#[trigger] reached(links, start, i) matches Some(path) && is_shortcut(path))
    &&& forall|i: nat, j: nat|
        i < j < count ==> !same_path(
            #[trigger] reached(links, start, i)->0,
            #[trigger] reached(links, start, j)->0,
        )
}

/// Whether the walk has come from `start` along the links.
pub open spec fn on_track(
    links: spec_fn(Seq<char>) -> Option<Seq<char>>,
    start: Seq<char>,
    walk: WalkView,
) -> bool {
    &&& walk.wf()
    &&& reached(links, start, walk.visited.len()) == Some(walk.current)
    &&& forall|i: int|
        0 <= i < walk.visited.len() ==> reached(links, start, i as nat) == Some(
            #[trigger] walk.visited[i],
        )
}

proof fn lemma_track_is_chain(
    links: spec_fn(Seq<char>) -> Option<Seq<char>>,
    start: Seq<char>,
    walk: WalkView,
)
    requires
        on_track(links, start, walk),
    ensures
        forall|i: nat|
            i <= walk.visited.len() ==> (#[trigger] reached(links, start, i) matches Some(path)
                && is_shortcut(path)),
        forall|i: nat, j: nat|
            i < j <= walk.visited.len() ==> !same_path(
                #[trigger] reached(links, start, i)->0,
                #[trigger] reached(links, start, j)->0,
            ),
{
    let n = walk.visited.len();
    assert forall|i: nat| i <= n implies (#[trigger] reached(links, start, i) matches Some(path)
        && is_shortcut(path)) by {
        if i < n {
            assert(reached(links, start, i) == Some(walk.visited[i as int]));
            assert(is_shortcut(walk.visited[i as int]));
        }
    }
    assert forall|i: nat, j: nat| i < j <= n implies !same_path(
        #[trigger] reached(links, start, i)->0,
        #[trigger] reached(links, start, j)->0,
    ) by {
        assert(reached(links, start, i) == Some(walk.visited[i as int]));
        if j < n {
            assert(reached(links, start, j) == Some(walk.visited[j as int]));
        } else {
            assert(!lists_path(walk.visited, walk.current));
        }
    }
}

proof fn lemma_walk_from(
    links: spec_fn(Seq<char>) -> Option<Seq<char>>,
    start: Seq<char>,
    walk: WalkView,
    target: Seq<char>,
)
    requires
        on_track(links, start, walk),
    ensures
        walked(
            links,
            ResolutionView::Read(walk),
            (MAX_SHORTCUT_RESOLUTION_HOPS - walk.visited.len()) as nat,
        ) == Some(target) <==> exists|count: nat|
            walk.visited.len() < count && leads_to(links, start, target, count),
    decreases MAX_SHORTCUT_RESOLUTION_HOPS - walk.visited.len(),
{
    let n = walk.visited.len();
    let steps = (MAX_SHORTCUT_RESOLUTION_HOPS - n) as nat;
    let link = links(walk.current);
    let state = walk.after(link);
    let next = (n + 1) as nat;
    lemma_track_is_chain(links, start, walk);
    assert(reached(links, start, next) == link);
    assert(walked(links, ResolutionView::Read(walk), steps) == walked(
        links,
        state,
        (steps - 1) as nat,
    ));
    match state {
        ResolutionView::Found(path) => {
            if path == target {
                assert(leads_to(links, start, target, next));
            } else {
                assert forall|count: nat| n < count implies !leads_to(
                    links,
                    start,
                    target,
                    count,
                ) by {
                    if count > next && leads_to(links, start, target, count) {
                        assert(reached(links, start, next) matches Some(path) && is_shortcut(path));
                    }
                }
            }
        },
        ResolutionView::Nothing => {
            assert forall|count: nat| n < count implies !leads_to(links, start, target, count) by {
                if leads_to(links, start, target, count) {
                    if count == next {
                        assert(link == Some(target));
                    } else {
                        assert(reached(links, start, next) matches Some(path) && is_shortcut(path));
                        let path = link->0;
                        let visited = walk.visited.push(walk.current);
                        assert(next < count <= MAX_SHORTCUT_RESOLUTION_HOPS);
                        assert(lists_path(visited, path));
                        let i = choose|i: int|
                            0 <= i < visited.len() && same_path(#[trigger] visited[i], path);
                        if i < n {
                            assert(visited[i] == walk.visited[i]);
                        }
                        assert(reached(links, start, i as nat) == Some(visited[i]));
                        assert(!same_path(
                            reached(links, start, i as nat)->0,
                            reached(links, start, next)->0,
                        ));
                    }
                }
            }
        },
        ResolutionView::Read(further) => {
            assert(further.visited =~= walk.visited.push(walk.current));
            assert forall|i: int, j: int| 0 <= i < j < further.visited.len() implies !same_path(
                #[trigger] further.visited[i],
                #[trigger] further.visited[j],
            ) by {
                assert(further.visited[i] == walk.visited[i]);
                if j < n {
                    assert(further.visited[j] == walk.visited[j]);
                } else {
                    assert(!lists_path(walk.visited, walk.current));
                }
            }
            assert forall|i: int| 0 <= i < further.visited.len() implies is_shortcut(
                #[trigger] further.visited[i],
            ) && reached(links, start, i as nat) == Some(further.visited[i]) by {
                if i < n {
                    assert(further.visited[i] == walk.visited[i]);
                }
            }
            lemma_walk_from(links, start, further, target);
            assert forall|count: nat| n < count && leads_to(links, start, target, count) implies
                further.visited.len() < count by {
                if count == next {
                    assert(link == Some(target));
                }
            }
        },
    }
}

/// Following links one by one finds exactly the target to which different
/// shortcuts lead in at most [`MAX_SHORTCUT_RESOLUTION_HOPS`] links; a longer
/// chain, a chain that comes back to a shortcut and a link that cannot be read
/// all give nothing. The target is never itself a shortcut.
pub proof fn law_shortcuts_lead_to_target(
    links: spec_fn(Seq<char>) -> Option<Seq<char>>,
    start: Seq<char>,
    target: Seq<char>,
)
    ensures
        walked(links, resolution_start(start), MAX_SHORTCUT_RESOLUTION_HOPS as nat) == Some(target)
            <==> exists|count: nat| leads_to(links, start, target, count),
{
    if is_shortcut(start) {
        let walk = WalkView { current: start, visited: Seq::empty() };
        lemma_walk_from(links, start, walk, target);
        assert forall|count: nat| leads_to(links, start, target, count) implies
            walk.visited.len() < count by {}
        if exists|count: nat| leads_to(links, start, target, count) {
            let count = choose|count: nat| leads_to(links, start, target, count);
            assert(walk.visited.len() < count && leads_to(links, start, target, count));
        }
    } else {
        assert forall|count: nat| !leads_to(links, start, target, count) by {
            if leads_to(links, start, target, count) {
                assert(reached(links, start, 0) matches Some(path) && is_shortcut(path));
            }
        }
    }
}

/// The program that a selected item leads to: a shortcut's target, or the item
/// itself, where that is a program by its name and a file.
pub open spec fn probe_target(
    target: Seq<char>,
    resolved: Option<Seq<char>>,
    is_file: bool,
) -> Option<Seq<char>> {
    let executable = if is_shortcut(target) {
        resolved
    } else {
        Some(target)
    };
    match executable {
        Some(path) => if is_file && is_executable(path) {
            Some(path)
        } else {
            None
        },
        None => None,
    }
}

/// The program that the selected item `target` leads to. `resolved` is where it
/// leads if it is a shortcut, and `is_file` says whether what it leads to is a
/// file.
pub fn uninstall_probe_target(target: &str, resolved: Option<String>, is_file: bool) -> (found:
    Option<String>)
    ensures
        match found {
            Some(path) => probe_target(target@, text_view(resolved), is_file) == Some(path@),
            None => probe_target(target@, text_view(resolved), is_file) is None,
        },
{
    let executable = if is_shortcut_file(target) {
        match resolved {
            Some(path) => path,
            None => {
                return None;
            },
        }
    } else {
        target.to_owned()
    };
    if is_file && is_executable_file(executable.as_str()) {
        Some(executable)
    } else {
        None
    }
}

/// A shortcut is followed over one link and up to four. Where it leads is never a
/// shortcut, and no shortcut is passed twice.
pub proof fn law_four_links_are_followed(
    links: spec_fn(Seq<char>) -> Option<Seq<char>>,
    start: Seq<char>,
    target: Seq<char>,
    count: nat,
)
    ensures
        leads_to(links, start, target, count) ==> 1 <= count <= 4 && is_shortcut(start)
            && !is_shortcut(target) && reached(links, start, count) == Some(target),
        is_shortcut(start) && !is_shortcut(target) && links(start) == Some(target) ==> leads_to(
            links,
            start,
            target,
            1,
        ),
        walked(links, resolution_start(start), 4) == Some(target) <==> exists|n: nat|
            leads_to(links, start, target, n),
        !is_shortcut(start) ==> walked(links, resolution_start(start), 4) is None,
{
    law_shortcuts_lead_to_target(links, start, target);
    if leads_to(links, start, target, count) {
        assert(reached(links, start, 0) matches Some(path) && is_shortcut(path));
    }
    if is_shortcut(start) && !is_shortcut(target) && links(start) == Some(target) {
        reveal_with_fuel(reached, 2);
        assert(reached(links, start, 0) == Some(start));
        assert(reached(links, start, 1) == Some(target));
        assert(leads_to(links, start, target, 1));
    }
}

/// Each link decides the next step: a link that cannot be read leads nowhere, one to
/// something that is no shortcut is the end, and one to another shortcut goes on
/// there, unless that was passed before or four links were followed.
pub proof fn law_links_decide_the_next_step(walk: WalkView, target: Seq<char>)
    requires
        walk.wf(),
    ensures
        walk.after(None) is Nothing,
        !is_shortcut(target) ==> walk.after(Some(target)) == ResolutionView::Found(target),
        is_shortcut(target) && (same_path(walk.current, target) || lists_path(
            walk.visited,
            target,
        )) ==> walk.after(Some(target)) is Nothing,
        is_shortcut(target) && walk.visited.len() == 3 ==> walk.after(Some(target)) is Nothing,
        is_shortcut(target) && walk.visited.len() < 3 && !same_path(walk.current, target)
            && !lists_path(walk.visited, target) ==> walk.after(Some(target))
            == ResolutionView::Read(
            WalkView { current: target, visited: walk.visited + seq![walk.current] },
        ),
{
    let visited = walk.visited.push(walk.current);
    assert(visited =~= walk.visited + seq![walk.current]);
    if same_path(walk.current, target) {
        assert(visited[walk.visited.len() as int] == walk.current);
        assert(lists_path(visited, target));
    }
    if lists_path(walk.visited, target) {
        let i = choose|i: int|
            0 <= i < walk.visited.len() && same_path(#[trigger] walk.visited[i], target);
        assert(visited[i] == walk.visited[i]);
        assert(lists_path(visited, target));
    }
    if lists_path(visited, target) {
        let i = choose|i: int| 0 <= i < visited.len() && same_path(#[trigger] visited[i], target);
        if i < walk.visited.len() {
            assert(walk.visited[i] == visited[i]);
        }
    }
}

/// A link is what stands before the first zero of what the shell wrote: without a
/// zero, or with one at once, there is no link.
pub proof fn law_links_end_at_zero(path: Seq<char>, more: Seq<u16>, buffer: Seq<u16>)
    ensures
        path.len() > 0 && !path.contains('\0') ==> link_text(text_units(path) + seq![0u16] + more)
            == Some(path),
        link_text(seq![0u16] + more) is None,
        (forall|i: int| 0 <= i < buffer.len() ==> #[trigger] buffer[i] != 0) ==> link_text(
            buffer,
        ) is None,
{
    if path.len() > 0 && !path.contains('\0') {
        let units = text_units(path);
        let whole = units + seq![0u16] + more;
        law_units_end_at_zero(whole);
        lemma_units_without_zero(path);
        law_decoding_undoes_encoding(path);
        let head = before_zero(whole);
        if head.len() < units.len() {
            assert(whole[head.len() as int] == units[head.len() as int]);
        } else if head.len() > units.len() {
            assert(head[units.len() as int] == whole[units.len() as int]);
        }
        assert(head =~= units) by {
            assert forall|i: int| 0 <= i < head.len() implies head[i] == units[i] by {
                assert(head[i] == whole[i]);
            }
        }
        if units.len() == 0 {
            assert(units =~= Seq::<u16>::empty());
            assert(decoded_lossy(units) =~= Seq::<char>::empty());
        }
    }
    assert((seq![0u16] + more)[0] == 0);
    law_units_end_at_zero(buffer);
}

/// A selected shortcut leads to what it resolves to, and any other item to itself;
/// there is a program only where that is an executable by its name and a file.
pub proof fn law_items_lead_to_programs(
    target: Seq<char>,
    resolved: Option<Seq<char>>,
    is_file: bool,
)
    ensures
        probe_target(target, resolved, is_file) matches Some(path) ==> is_file && is_executable(
            path,
        ) && (if is_shortcut(target) {
            resolved == Some(path)
        } else {
            path == target
        }),
        !is_shortcut(target) && is_file && is_executable(target) ==> probe_target(
            target,
            resolved,
            is_file,
        ) == Some(target),
        is_shortcut(target) && is_file && resolved is Some && is_executable(resolved->0)
            ==> probe_target(target, resolved, is_file) == resolved,
{
}

} // verus!
