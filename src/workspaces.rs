use vstd::prelude::*;
use crate::geometry::{Rectangle, Window};
use crate::layout::Layout;

verus! {

/// A named collection of windows with its layout. An empty `windows` is a
/// workspace without a stack; otherwise `focus` indexes the focused window.
#[derive(Debug)]
pub struct Workspace {
    pub tag: String,
    pub layout: Layout,
    pub windows: Vec<Window>,
    pub focus: usize,
}

/// The mathematical value of a [`Workspace`].
pub struct WorkspaceView {
    pub tag: Seq<char>,
    pub layout: Layout,
    pub windows: Seq<Window>,
    pub focus: int,
}

impl View for Workspace {
    type V = WorkspaceView;

    open spec fn view(&self) -> WorkspaceView {
        WorkspaceView { tag: self.tag@, layout: self.layout, windows: self.windows@, focus: self.focus as int }
    }
}

impl WorkspaceView {
    /// The stack holds each window once, and the focus points into it.
    pub open spec fn wf(self) -> bool {
        &&& self.windows.no_duplicates()
        &&& if self.windows.len() == 0 { self.focus == 0 } else { 0 <= self.focus < self.windows.len() }
    }

    /// A new window goes in above the focus and becomes the focused window.
    pub open spec fn add(self, w: Window) -> WorkspaceView {
        WorkspaceView { windows: self.windows.insert(self.focus, w), ..self }
    }

    /// Removes `w` if present. The focus stays on the same window; where that
    /// window is the one removed, it moves to the next one, or to the previous
    /// one when the removed window was the last.
    pub open spec fn delete(self, w: Window) -> WorkspaceView {
        if self.windows.contains(w) {
            let k = self.windows.index_of(w);
            let focus = if k < self.focus || (k == self.focus && self.focus > 0 && self.focus + 1 == self.windows.len()) {
                self.focus - 1
            } else {
                self.focus
            };
            WorkspaceView { windows: self.windows.remove(k), focus, ..self }
        } else {
            self
        }
    }
}

/// A physical screen and the index of the workspace bound to it.
#[derive(Clone, Copy, Debug, PartialEq, Eq, Structural)]
pub struct Screen {
    pub detail: Rectangle,
    pub workspace: usize,
}

/// The registry of workspaces: every workspace in tag order, the current
/// screen, and the other screens. A workspace bound to no screen is hidden.
#[derive(Debug)]
pub struct Workspaces {
    workspaces: Vec<Workspace>,
    current: Screen,
    visible: Vec<Screen>,
}

/// The mathematical value of a [`Workspaces`] registry.
pub struct RegistryView {
    pub workspaces: Seq<WorkspaceView>,
    pub current: Screen,
    pub visible: Seq<Screen>,
}

impl View for Workspaces {
    type V = RegistryView;

    closed spec fn view(&self) -> RegistryView {
        RegistryView {
            workspaces: self.workspaces@.map_values(|ws: Workspace| ws@),
            current: self.current,
            visible: self.visible@,
        }
    }
}

impl RegistryView {
    /// No window is in two stacks, nor twice in one.
    pub open spec fn unique_windows(self) -> bool {
        &&& forall|i: int| 0 <= i < self.workspaces.len() ==> (#[trigger] self.workspaces[i]).wf()
        &&& forall|i: int, j: int, w: Window|
            0 <= i < self.workspaces.len() && 0 <= j < self.workspaces.len() && i != j
                && (#[trigger] self.workspaces[i].windows.contains(w))
                ==> !(#[trigger] self.workspaces[j].windows.contains(w))
    }

    /// Each workspace is bound to at most one screen; screens lie in the
    /// coordinate range.
    pub open spec fn screens_wf(self) -> bool {
        &&& self.workspaces.len() <= usize::MAX
        &&& self.current.workspace < self.workspaces.len()
        &&& self.current.detail.fits()
        &&& forall|k: int| 0 <= k < self.visible.len() ==> {
            &&& (#[trigger] self.visible[k]).workspace < self.workspaces.len()
            &&& self.visible[k].workspace != self.current.workspace
            &&& self.visible[k].detail.fits()
        }
        &&& forall|j: int, k: int|
            0 <= j < self.visible.len() && 0 <= k < self.visible.len() && j != k
                ==> (#[trigger] self.visible[j]).workspace != (#[trigger] self.visible[k]).workspace
    }

    /// Tags are unique.
    pub open spec fn unique_tags(self) -> bool {
        forall|i: int, j: int|
            0 <= i < self.workspaces.len() && 0 <= j < self.workspaces.len() && i != j
                ==> (#[trigger] self.workspaces[i]).tag != (#[trigger] self.workspaces[j]).tag
    }

    pub open spec fn wf(self) -> bool {
        &&& self.unique_windows()
        &&& self.screens_wf()
        &&& self.unique_tags()
    }

    /// `w` is in some workspace's stack.
    pub open spec fn managed(self, w: Window) -> bool {
        exists|i: int| 0 <= i < self.workspaces.len() && (#[trigger] self.workspaces[i]).windows.contains(w)
    }

    /// Workspace `i` is shown on a screen other than the current one, at position `k`.
    pub open spec fn visible_at(self, i: int, k: int) -> bool {
        0 <= k < self.visible.len() && self.visible[k].workspace == i
    }

    /// Workspace `i` is bound to a screen.
    pub open spec fn bound(self, i: int) -> bool {
        self.current.workspace == i || exists|k: int| #[trigger] self.visible_at(i, k)
    }

    /// Workspace `i` exists and is bound to no screen.
    pub open spec fn hidden(self, i: int) -> bool {
        0 <= i < self.workspaces.len() && !self.bound(i)
    }

    /// The current workspace.
    pub open spec fn current_workspace(self) -> WorkspaceView {
        self.workspaces[self.current.workspace as int]
    }

    /// Adds `w` to the current workspace, unless it is already managed.
    pub open spec fn add(self, w: Window) -> RegistryView {
        if self.managed(w) {
            self
        } else {
            let c = self.current.workspace as int;
            RegistryView { workspaces: self.workspaces.update(c, self.workspaces[c].add(w)), ..self }
        }
    }

    /// Removes `w` from whichever stack holds it.
    pub open spec fn delete(self, w: Window) -> RegistryView {
        RegistryView { workspaces: self.workspaces.map_values(|ws: WorkspaceView| ws.delete(w)), ..self }
    }

    /// Makes workspace `i` current. A hidden workspace takes the current
    /// screen and the previously current one becomes hidden; a workspace on
    /// another screen trades places with the current one.
    pub open spec fn view(self, i: int) -> RegistryView {
        let cur = self.current;
        if i == cur.workspace {
            self
        } else if exists|k: int| #[trigger] self.visible_at(i, k) {
            let k = choose|k: int| #[trigger] self.visible_at(i, k);
            RegistryView {
                current: Screen { detail: cur.detail, workspace: i as usize },
                visible: self.visible.update(k, Screen { detail: self.visible[k].detail, workspace: cur.workspace }),
                ..self
            }
        } else {
            RegistryView { current: Screen { detail: cur.detail, workspace: i as usize }, ..self }
        }
    }
}

proof fn lemma_insert_facts(s: Seq<Window>, f: int, w: Window)
    requires
        0 <= f <= s.len(),
    ensures
        forall|x: Window| #[trigger] s.insert(f, w).contains(x) <==> (x == w || s.contains(x)),
        s.no_duplicates() && !s.contains(w) ==> s.insert(f, w).no_duplicates(),
{
    let t = s.insert(f, w);
    s.insert_ensures(f, w);
    assert forall|x: Window| #[trigger] t.contains(x) <==> (x == w || s.contains(x)) by {
        if t.contains(x) {
            let i = choose|i: int| 0 <= i < t.len() && t[i] == x;
            if i > f {
                assert(t[i] == s[i - 1]);
            }
        }
        if s.contains(x) {
            let i = choose|i: int| 0 <= i < s.len() && s[i] == x;
            if i < f {
                assert(t[i] == x);
            } else {
                assert(t[i + 1] == x);
            }
        }
        if x == w {
            assert(t[f] == x);
        }
    }
    if s.no_duplicates() && !s.contains(w) {
        assert forall|i: int, j: int| 0 <= i < t.len() && 0 <= j < t.len() && i != j implies t[i] != t[j] by {
            let si = if i < f { i } else { i - 1 };
            let sj = if j < f { j } else { j - 1 };
            if i != f && j != f {
                assert(t[i] == s[si]);
                assert(t[j] == s[sj]);
            } else if i == f {
                assert(t[j] == s[sj]);
            } else {
                assert(t[i] == s[si]);
            }
        }
    }
}

proof fn lemma_remove_facts(s: Seq<Window>, k: int)
    requires
        0 <= k < s.len(),
        s.no_duplicates(),
    ensures
        s.remove(k).no_duplicates(),
        forall|x: Window| #[trigger] s.remove(k).contains(x) <==> (s.contains(x) && x != s[k]),
        s.index_of(s[k]) == k,
{
    let t = s.remove(k);
    s.remove_ensures(k);
    assert forall|x: Window| #[trigger] t.contains(x) <==> (s.contains(x) && x != s[k]) by {
        if t.contains(x) {
            let i = choose|i: int| 0 <= i < t.len() && t[i] == x;
            if i < k {
                assert(s[i] == x);
            } else {
                assert(s[i + 1] == x);
            }
        }
        if s.contains(x) && x != s[k] {
            let i = choose|i: int| 0 <= i < s.len() && s[i] == x;
            if i < k {
                assert(t[i] == x);
            } else {
                assert(t[i - 1] == x);
            }
        }
    }
    assert forall|i: int, j: int| 0 <= i < t.len() && 0 <= j < t.len() && i != j implies t[i] != t[j] by {
        let si = if i < k { i } else { i + 1 };
        let sj = if j < k { j } else { j + 1 };
        assert(t[i] == s[si]);
        assert(t[j] == s[sj]);
    }
    assert(s.contains(s[k]));
}

impl WorkspaceView {
    proof fn lemma_add(self, w: Window)
        requires
            self.wf(),
            !self.windows.contains(w),
        ensures
            self.add(w).wf(),
            forall|x: Window| #[trigger] self.add(w).windows.contains(x) <==> (x == w || self.windows.contains(x)),
    {
        lemma_insert_facts(self.windows, self.focus, w);
    }

    proof fn lemma_delete(self, w: Window)
        requires
            self.wf(),
        ensures
            self.delete(w).wf(),
            forall|x: Window| #[trigger] self.delete(w).windows.contains(x) <==> (self.windows.contains(x) && x != w),
    {
        if self.windows.contains(w) {
            let k = self.windows.index_of(w);
            lemma_remove_facts(self.windows, k);
        }
    }
}

impl RegistryView {
    /// Managing a window keeps every invariant, leaves the screens as they
    /// were, and adds exactly that window to the managed ones; a window that
    /// is already managed leaves the registry unchanged, so it is never held
    /// twice.
    pub proof fn lemma_add(self, w: Window)
        requires
            self.wf(),
        ensures
            self.add(w).wf(),
            self.add(w).managed(w),
            forall|x: Window| #[trigger] self.add(w).managed(x) <==> (x == w || self.managed(x)),
            self.add(w).current == self.current,
            self.add(w).visible == self.visible,
            self.managed(w) ==> self.add(w) == self,
    {
        if !self.managed(w) {
            let c = self.current.workspace as int;
            let n = self.add(w);
            self.workspaces[c].lemma_add(w);
            assert(!self.workspaces[c].windows.contains(w));
            assert forall|x: Window| #[trigger] n.managed(x) <==> (x == w || self.managed(x)) by {
                if n.managed(x) {
                    let i = choose|i: int| 0 <= i < n.workspaces.len() && (#[trigger] n.workspaces[i]).windows.contains(x);
                    if i != c {
                        assert(self.workspaces[i].windows.contains(x));
                    }
                }
                if self.managed(x) {
                    let i = choose|i: int| 0 <= i < self.workspaces.len() && (#[trigger] self.workspaces[i]).windows.contains(x);
                    assert(n.workspaces[i].windows.contains(x));
                }
                if x == w {
                    assert(n.workspaces[c].windows.contains(x));
                }
            }
            assert forall|i: int, j: int, x: Window|
                0 <= i < n.workspaces.len() && 0 <= j < n.workspaces.len() && i != j
                    && (#[trigger] n.workspaces[i].windows.contains(x))
                    implies !(#[trigger] n.workspaces[j].windows.contains(x)) by {
                if i != c && j != c {
                } else if i == c {
                    if x == w {
                        assert(!self.workspaces[j].windows.contains(w));
                    }
                } else {
                    if x == w {
                        assert(!self.workspaces[i].windows.contains(w));
                    }
                }
            }
            assert(n.unique_tags());
        }
    }

    /// Unmanaging a window keeps every invariant, leaves the screens as they
    /// were, and removes exactly that window from the managed ones.
    pub proof fn lemma_delete(self, w: Window)
        requires
            self.wf(),
        ensures
            self.delete(w).wf(),
            !self.delete(w).managed(w),
            forall|x: Window| #[trigger] self.delete(w).managed(x) <==> (x != w && self.managed(x)),
            self.delete(w).current == self.current,
            self.delete(w).visible == self.visible,
    {
        let n = self.delete(w);
        assert forall|i: int| 0 <= i < n.workspaces.len() implies
            (#[trigger] n.workspaces[i]).wf()
            && forall|x: Window| #[trigger] n.workspaces[i].windows.contains(x)
                <==> (self.workspaces[i].windows.contains(x) && x != w) by {
            self.workspaces[i].lemma_delete(w);
        }
        assert forall|x: Window| #[trigger] n.managed(x) <==> (x != w && self.managed(x)) by {
            if n.managed(x) {
                let i = choose|i: int| 0 <= i < n.workspaces.len() && (#[trigger] n.workspaces[i]).windows.contains(x);
                assert(self.workspaces[i].windows.contains(x));
            }
            if x != w && self.managed(x) {
                let i = choose|i: int| 0 <= i < self.workspaces.len() && (#[trigger] self.workspaces[i]).windows.contains(x);
                assert(n.workspaces[i].windows.contains(x));
            }
        }
        assert forall|i: int, j: int|
            0 <= i < n.workspaces.len() && 0 <= j < n.workspaces.len() && i != j
                implies (#[trigger] n.workspaces[i]).tag != (#[trigger] n.workspaces[j]).tag by {
            assert(self.workspaces[i].tag != self.workspaces[j].tag);
        }
    }

    /// Unmanaging a window that is not managed changes nothing.
    pub proof fn lemma_delete_absent(self, w: Window)
        requires
            !self.managed(w),
        ensures
            self.delete(w) == self,
    {
        assert forall|i: int| 0 <= i < self.workspaces.len() implies
            !(#[trigger] self.workspaces[i]).windows.contains(w) by {
            if self.workspaces[i].windows.contains(w) {
                assert(self.managed(w));
            }
        }
        assert(self.delete(w).workspaces =~= self.workspaces);
    }

    /// Switching to an existing workspace keeps every invariant, makes it
    /// current, and leaves every stack as it was.
    pub proof fn lemma_view(self, i: int)
        requires
            self.wf(),
            0 <= i < self.workspaces.len(),
        ensures
            self.view(i).wf(),
            self.view(i).workspaces == self.workspaces,
            self.view(i).current.workspace == i,
            self.view(i).current.detail == self.current.detail,
            forall|x: Window| #[trigger] self.view(i).managed(x) == self.managed(x),
    {
        let n = self.view(i);
        if i != self.current.workspace && exists|k: int| #[trigger] self.visible_at(i, k) {
            let k = choose|k: int| #[trigger] self.visible_at(i, k);
            assert forall|a: int, b: int|
                0 <= a < n.visible.len() && 0 <= b < n.visible.len() && a != b
                    implies (#[trigger] n.visible[a]).workspace != (#[trigger] n.visible[b]).workspace by {
                assert(self.visible[a].workspace != self.current.workspace);
                assert(self.visible[b].workspace != self.current.workspace);
            }
            assert forall|a: int| 0 <= a < n.visible.len() implies
                (#[trigger] n.visible[a]).workspace != n.current.workspace by {
                if a != k {
                    assert(self.visible_at(i, k));
                }
            }
        } else if i != self.current.workspace {
            assert forall|a: int| 0 <= a < n.visible.len() implies
                (#[trigger] n.visible[a]).workspace != n.current.workspace by {
                assert(!self.visible_at(i, a));
            }
        }
    }

    /// Switching to a workspace and then back to the one that was current
    /// restores the registry exactly.
    pub proof fn lemma_view_round_trip(self, i: int)
        requires
            self.wf(),
            0 <= i < self.workspaces.len(),
        ensures
            self.view(i).view(self.current.workspace as int) == self,
    {
        let p = self.current.workspace as int;
        let n = self.view(i);
        self.lemma_view(i);
        if i != p {
            if exists|k: int| #[trigger] self.visible_at(i, k) {
                let k = choose|k: int| #[trigger] self.visible_at(i, k);
                assert(n.visible_at(p, k));
                let k2 = choose|k2: int| #[trigger] n.visible_at(p, k2);
                assert(k2 == k);
                assert(n.view(p).visible =~= self.visible);
            } else {
                assert forall|k: int| !(#[trigger] n.visible_at(p, k)) by {
                    if 0 <= k < n.visible.len() {
                        assert(self.visible[k].workspace != p);
                    }
                }
            }
        }
    }
}

/// The position of `w` in `windows`, if it is there.
fn position(windows: &Vec<Window>, w: Window) -> (r: Option<usize>)
    ensures
        match r {
            Some(k) => k < windows.len() && windows@[k as int] == w,
            None => !windows@.contains(w),
        },
{
    let mut k: usize = 0;
    while k < windows.len()
        invariant
            k <= windows.len(),
            forall|j: int| 0 <= j < k ==> windows@[j] != w,
        decreases windows.len() - k,
    {
        if windows[k] == w {
            return Some(k);
        }
        k = k + 1;
    }
    None
}

impl Workspaces {
    /// Builds the registry: workspace `i` carries `tags[i]` and `layout`, with
    /// no windows; the first screen is current and shows workspace 0, screen
    /// `k` shows workspace `k`, and the remaining workspaces are hidden.
    pub fn new(layout: Layout, tags: &Vec<String>, screens: &Vec<Rectangle>) -> (r: Workspaces)
        requires
            1 <= screens.len() <= tags.len(),
            forall|k: int| 0 <= k < screens.len() ==> (#[trigger] screens@[k]).fits(),
            forall|i: int, j: int| 0 <= i < tags.len() && 0 <= j < tags.len() && i != j
                ==> (#[trigger] tags@[i])@ != (#[trigger] tags@[j])@,
        ensures
            r@.wf(),
            r@.workspaces.len() == tags.len(),
            forall|i: int| 0 <= i < tags.len() ==> (#[trigger] r@.workspaces[i])
                == (WorkspaceView { tag: tags@[i]@, layout, windows: Seq::empty(), focus: 0 }),
            r@.current == (Screen { detail: screens@[0], workspace: 0 }),
            r@.visible == Seq::new((screens.len() - 1) as nat,
                |k: int| Screen { detail: screens@[k + 1], workspace: (k + 1) as usize }),
    {
        let mut workspaces: Vec<Workspace> = Vec::new();
        let mut i: usize = 0;
        while i < tags.len()
            invariant
                i <= tags.len(),
                workspaces.len() == i,
                forall|j: int| 0 <= j < i ==> (#[trigger] workspaces@[j])@
                    == (WorkspaceView { tag: tags@[j]@, layout, windows: Seq::empty(), focus: 0 }),
            decreases tags.len() - i,
        {
            workspaces.push(Workspace { tag: tags[i].clone(), layout, windows: Vec::new(), focus: 0 });
            i = i + 1;
        }
        let mut visible: Vec<Screen> = Vec::new();
        let mut k: usize = 1;
        while k < screens.len()
            invariant
                1 <= k <= screens.len(),
                visible@ =~= Seq::new((k - 1) as nat, |j: int| Screen { detail: screens@[j + 1], workspace: (j + 1) as usize }),
            decreases screens.len() - k,
        {
            visible.push(Screen { detail: screens[k], workspace: k });
            k = k + 1;
        }
        let r = Workspaces { workspaces, current: Screen { detail: screens[0], workspace: 0 }, visible };
        assert(r@.workspaces.len() == tags.len());
        assert forall|i: int| 0 <= i < tags.len() implies #[trigger] r@.workspaces[i]
            == (WorkspaceView { tag: tags@[i]@, layout, windows: Seq::empty(), focus: 0 }) by {
            assert(r@.workspaces[i] == workspaces@[i]@);
        }
        assert forall|i: int, j: int, w: Window|
            0 <= i < r@.workspaces.len() && 0 <= j < r@.workspaces.len() && i != j
                && (#[trigger] r@.workspaces[i].windows.contains(w))
                implies !(#[trigger] r@.workspaces[j].windows.contains(w)) by {
            assert(r@.workspaces[i].windows.len() == 0);
        }
        assert(r@.unique_tags());
        r
    }

    /// The number of workspaces.
    pub fn len(&self) -> (r: usize)
        ensures
            r == self@.workspaces.len(),
    {
        self.workspaces.len()
    }

    /// The workspace at `i`, in tag order.
    pub fn workspace(&self, i: usize) -> (r: &Workspace)
        requires
            i < self@.workspaces.len(),
        ensures
            r@ == self@.workspaces[i as int],
    {
        &self.workspaces[i]
    }

    /// The current screen.
    pub fn current(&self) -> (r: Screen)
        ensures
            r == self@.current,
    {
        self.current
    }

    /// The screens other than the current one.
    pub fn visible(&self) -> (r: &Vec<Screen>)
        ensures
            r@ == self@.visible,
    {
        &self.visible
    }

    /// Whether workspace `i` is bound to a screen.
    pub fn is_bound(&self, i: usize) -> (r: bool)
        ensures
            r == self@.bound(i as int),
    {
        if self.current.workspace == i {
            return true;
        }
        let mut k: usize = 0;
        while k < self.visible.len()
            invariant
                k <= self.visible.len(),
                forall|j: int| 0 <= j < k ==> !self@.visible_at(i as int, j),
            decreases self.visible.len() - k,
        {
            if self.visible[k].workspace == i {
                assert(self@.visible_at(i as int, k as int));
                return true;
            }
            k = k + 1;
        }
        false
    }

    /// Whether `w` is in any workspace's stack.
    pub fn contains(&self, w: Window) -> (r: bool)
        ensures
            r == self@.managed(w),
    {
        let mut i: usize = 0;
        while i < self.workspaces.len()
            invariant
                i <= self.workspaces.len(),
                forall|j: int| 0 <= j < i ==> !(#[trigger] self@.workspaces[j]).windows.contains(w),
            decreases self.workspaces.len() - i,
        {
            assert(self@.workspaces[i as int] == self.workspaces@[i as int]@);
            if position(&self.workspaces[i].windows, w).is_some() {
                return true;
            }
            i = i + 1;
        }
        false
    }

    /// Puts `w` into the current workspace above its focus, focused.
    pub fn add(&mut self, w: Window)
        requires
            old(self)@.wf(),
            !old(self)@.managed(w),
        ensures
            final(self)@ == old(self)@.add(w),
    {
        let c = self.current.workspace;
        let ghost before = self@;
        assert(before.workspaces[c as int] == self.workspaces@[c as int]@);
        let f = self.workspaces[c].focus;
        self.workspaces[c].windows.insert(f, w);
        assert(self@.workspaces =~= before.add(w).workspaces);
    }

    /// Removes `w` from whichever stack holds it.
    pub fn delete(&mut self, w: Window)
        requires
            old(self)@.wf(),
        ensures
            final(self)@ == old(self)@.delete(w),
    {
        let ghost before = self@;
        let mut i: usize = 0;
        while i < self.workspaces.len()
            invariant
                i <= self.workspaces.len(),
                before.wf(),
                self.workspaces.len() == before.workspaces.len(),
                self.current == before.current,
                self.visible@ == before.visible,
                forall|j: int| 0 <= j < i ==> (#[trigger] self.workspaces@[j])@ == before.workspaces[j].delete(w),
                forall|j: int| i <= j < self.workspaces.len() ==> (#[trigger] self.workspaces@[j])@ == before.workspaces[j],
            decreases self.workspaces.len() - i,
        {
            let old_ws = Ghost(before.workspaces[i as int]);
            assert(old_ws@.wf());
            match position(&self.workspaces[i].windows, w) {
                Some(k) => {
                    proof {
                        lemma_remove_facts(old_ws@.windows, k as int);
                    }
                    let focus = self.workspaces[i].focus;
                    let len = self.workspaces[i].windows.len();
                    let new_focus = if k < focus || (k == focus && focus > 0 && focus + 1 == len) {
                        focus - 1
                    } else {
                        focus
                    };
                    self.workspaces[i].windows.remove(k);
                    self.workspaces[i].focus = new_focus;
                    assert(self.workspaces@[i as int]@ == old_ws@.delete(w));
                }
                None => {}
            }
            i = i + 1;
        }
        assert(self@.workspaces =~= before.delete(w).workspaces);
    }

    /// Sets the layout of workspace `i`.
    pub fn set_layout(&mut self, i: usize, layout: Layout)
        requires
            old(self)@.wf(),
            i < old(self)@.workspaces.len(),
        ensures
            final(self)@ == (RegistryView {
                workspaces: old(self)@.workspaces.update(i as int, WorkspaceView { layout, ..old(self)@.workspaces[i as int] }),
                ..old(self)@
            }),
            final(self)@.wf(),
    {
        let ghost before = self@;
        self.workspaces[i].layout = layout;
        assert(self@.workspaces =~= before.workspaces.update(i as int, WorkspaceView { layout, ..before.workspaces[i as int] }));
        assert forall|a: int, b: int, w: Window|
            0 <= a < self@.workspaces.len() && 0 <= b < self@.workspaces.len() && a != b
                && (#[trigger] self@.workspaces[a].windows.contains(w))
                implies !(#[trigger] self@.workspaces[b].windows.contains(w)) by {
            assert(self@.workspaces[a].windows == before.workspaces[a].windows);
            assert(self@.workspaces[b].windows == before.workspaces[b].windows);
        }
        assert forall|a: int, b: int|
            0 <= a < self@.workspaces.len() && 0 <= b < self@.workspaces.len() && a != b
                implies (#[trigger] self@.workspaces[a]).tag != (#[trigger] self@.workspaces[b]).tag by {
            assert(before.workspaces[a].tag != before.workspaces[b].tag);
        }
    }

    /// The position among the other screens of the one that shows workspace `i`.
    fn find_visible(&self, i: usize) -> (r: Option<usize>)
        ensures
            match r {
                Some(k) => self@.visible_at(i as int, k as int),
                None => forall|k: int| !(#[trigger] self@.visible_at(i as int, k)),
            },
    {
        let mut k: usize = 0;
        while k < self.visible.len()
            invariant
                k <= self.visible.len(),
                forall|j: int| 0 <= j < k ==> !(#[trigger] self@.visible_at(i as int, j)),
            decreases self.visible.len() - k,
        {
            if self.visible[k].workspace == i {
                return Some(k);
            }
            k = k + 1;
        }
        None
    }

    /// Makes workspace `index` current; see [`RegistryView::view`].
    pub fn switch_to(&mut self, index: usize)
        requires
            old(self)@.wf(),
            index < old(self)@.workspaces.len(),
        ensures
            final(self)@ == old(self)@.view(index as int),
    {
        let ghost before = self@;
        let cur = self.current.workspace;
        if index == cur {
            return;
        }
        match self.find_visible(index) {
            Some(k) => {
                proof {
                    let k2 = choose|k2: int| #[trigger] before.visible_at(index as int, k2);
                    assert(k2 == k);
                }
                let screen = Screen { detail: self.visible[k].detail, workspace: cur };
                self.visible.set(k, screen);
                self.current.workspace = index;
                assert(self@.visible =~= before.view(index as int).visible);
                assert(self@.workspaces =~= before.view(index as int).workspaces);
            }
            None => {
                self.current.workspace = index;
                assert(self@.workspaces =~= before.view(index as int).workspaces);
            }
        }
    }
}

} // verus!
