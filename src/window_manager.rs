use vstd::prelude::*;
use crate::geometry::{Rectangle, Window};
use crate::layout::{arrange, Layout};
use crate::workspaces::{RegistryView, Workspaces};

verus! {

/// Settings read at start-up: the workspace tags, in order, and the border
/// width in pixels drawn around every shown window.
#[derive(Clone, Debug)]
pub struct Config {
    pub tags: Vec<String>,
    pub border_width: u32,
}

/// A command for the display boundary.
#[derive(Clone, Copy, Debug, PartialEq, Eq, Structural)]
pub enum Command {
    Show(Window),
    Hide(Window),
    /// New width and height; negative where the border is wider than half the placement.
    Resize(Window, i64, i64),
    Move(Window, u32, u32),
    SetBorderWidth(Window, u32),
}

/// Why a workspace switch was refused.
#[derive(Clone, Copy, Debug, PartialEq, Eq, Structural)]
pub enum ViewError {
    /// The index names no workspace.
    InvalidIndex,
}

/// The commands that show one window at its placement, inside a border.
pub open spec fn place(p: (Window, Rectangle), border: u32) -> Seq<Command> {
    let (w, r) = p;
    seq![
        Command::Show(w),
        Command::Resize(w, (r.width - 2 * border) as i64, (r.height - 2 * border) as i64),
        Command::Move(w, r.x, r.y),
        Command::SetBorderWidth(w, border),
    ]
}

/// The commands that show each placed window, in the order of the placements.
pub open spec fn place_all(ps: Seq<(Window, Rectangle)>, border: u32) -> Seq<Command>
    decreases ps.len(),
{
    if ps.len() == 0 {
        Seq::empty()
    } else {
        place_all(ps.drop_last(), border) + place(ps.last(), border)
    }
}

/// One hide command for each window of a stack, in stack order.
pub open spec fn hide_all(windows: Seq<Window>) -> Seq<Command> {
    windows.map_values(|w: Window| Command::Hide(w))
}

/// The hide commands for the hidden workspaces among the first `n`, in tag order.
pub open spec fn hide_hidden(v: RegistryView, n: int) -> Seq<Command>
    decreases n,
{
    if n <= 0 {
        Seq::empty()
    } else if v.hidden(n - 1) {
        hide_hidden(v, n - 1) + hide_all(v.workspaces[n - 1].windows)
    } else {
        hide_hidden(v, n - 1)
    }
}

/// The placements of the current workspace's windows on the current screen.
pub open spec fn current_placements(v: RegistryView) -> Seq<(Window, Rectangle)> {
    let ws = v.current_workspace();
    arrange(ws.layout, v.current.detail, ws.windows, ws.focus)
}

/// The full command sequence that brings the display in line with `v`:
/// the current workspace laid out on the current screen, then every window of
/// every hidden workspace hidden.
pub open spec fn layout_commands(v: RegistryView, border: u32) -> Seq<Command> {
    place_all(current_placements(v), border) + hide_hidden(v, v.workspaces.len() as int)
}

/// A window is managed from the moment it is managed until it is unmanaged:
/// managing it makes it managed, unmanaging it makes it unmanaged, and
/// switching workspaces or managing or unmanaging another window leaves its
/// status as it was.
pub proof fn lemma_managed_until_unmanaged(v: RegistryView, w: Window, other: Window, i: int)
    requires
        v.wf(),
        other != w,
        0 <= i < v.workspaces.len(),
    ensures
        v.add(w).managed(w),
        !v.delete(w).managed(w),
        v.add(other).managed(w) == v.managed(w),
        v.delete(other).managed(w) == v.managed(w),
        v.view(i).managed(w) == v.managed(w),
{
    v.lemma_add(w);
    v.lemma_delete(w);
    v.lemma_add(other);
    v.lemma_delete(other);
    v.lemma_view(i);
}

/// Managing, unmanaging and switching workspaces each keep the registry's
/// invariants; in particular no window ever stands in two stacks, nor twice
/// in one.
pub proof fn lemma_invariants_kept(v: RegistryView, w: Window, i: int)
    requires
        v.wf(),
        0 <= i < v.workspaces.len(),
    ensures
        v.add(w).wf(),
        v.delete(w).wf(),
        v.view(i).wf(),
        v.add(w).unique_windows(),
        v.delete(w).unique_windows(),
        v.view(i).unique_windows(),
{
    v.lemma_add(w);
    v.lemma_delete(w);
    v.lemma_view(i);
}

/// Managing a window that is already managed changes nothing, so it is still
/// held exactly once.
pub proof fn lemma_manage_managed(v: RegistryView, w: Window)
    requires
        v.wf(),
        v.managed(w),
    ensures
        v.add(w) == v,
{
    v.lemma_add(w);
}

/// The commands of a reapply depend on the registry alone: two window
/// managers holding the same registry, or one asked twice with no change in
/// between, produce the same commands.
pub proof fn lemma_reapply_idempotent(a: WindowManager, b: WindowManager, border: u32)
    requires
        a.model() == b.model(),
    ensures
        layout_commands(a.model(), border) == layout_commands(b.model(), border),
{
}

/// The number of times `c` occurs in `s`.
pub open spec fn occurrences(s: Seq<Command>, c: Command) -> nat
    decreases s.len(),
{
    if s.len() == 0 {
        0
    } else {
        occurrences(s.drop_last(), c) + if s.last() == c { 1nat } else { 0nat }
    }
}

/// `c` shows, resizes, moves or borders window `w`.
pub open spec fn displays(c: Command, w: Window) -> bool {
    match c {
        Command::Show(x) => x == w,
        Command::Resize(x, _, _) => x == w,
        Command::Move(x, _, _) => x == w,
        Command::SetBorderWidth(x, _) => x == w,
        Command::Hide(_) => false,
    }
}

proof fn lemma_occurrences_add(a: Seq<Command>, b: Seq<Command>, c: Command)
    ensures
        occurrences(a + b, c) == occurrences(a, c) + occurrences(b, c),
    decreases b.len(),
{
    if b.len() == 0 {
        assert(a + b =~= a);
    } else {
        assert((a + b).drop_last() =~= a + b.drop_last());
        lemma_occurrences_add(a, b.drop_last(), c);
    }
}

proof fn lemma_place_all_avoids(ps: Seq<(Window, Rectangle)>, border: u32, w: Window)
    requires
        forall|k: int| 0 <= k < ps.len() ==> (#[trigger] ps[k]).0 != w,
    ensures
        occurrences(place_all(ps, border), Command::Hide(w)) == 0,
        forall|k: int| 0 <= k < place_all(ps, border).len() ==> !displays(#[trigger] place_all(ps, border)[k], w),
    decreases ps.len(),
{
    if ps.len() > 0 {
        let init = ps.drop_last();
        assert forall|k: int| 0 <= k < init.len() implies (#[trigger] init[k]).0 != w by {
            assert(init[k] == ps[k]);
        }
        lemma_place_all_avoids(init, border, w);
        let tail = place(ps.last(), border);
        assert(ps.last() == ps[ps.len() - 1]);
        lemma_occurrences_add(place_all(init, border), tail, Command::Hide(w));
        assert(occurrences(tail, Command::Hide(w)) == 0) by {
            reveal_with_fuel(occurrences, 5);
        }
    }
}

proof fn lemma_hide_all_count(s: Seq<Window>, w: Window)
    requires
        s.no_duplicates(),
    ensures
        occurrences(hide_all(s), Command::Hide(w)) == if s.contains(w) { 1nat } else { 0nat },
        forall|k: int| 0 <= k < hide_all(s).len() ==> !displays(#[trigger] hide_all(s)[k], w),
    decreases s.len(),
{
    if s.len() > 0 {
        let t = s.drop_last();
        assert(hide_all(s).drop_last() =~= hide_all(t));
        assert(t.no_duplicates());
        lemma_hide_all_count(t, w);
        assert(s.contains(w) <==> (t.contains(w) || s.last() == w)) by {
            if s.contains(w) {
                let i = choose|i: int| 0 <= i < s.len() && s[i] == w;
                if i < t.len() {
                    assert(t[i] == w);
                }
            }
            if t.contains(w) {
                let i = choose|i: int| 0 <= i < t.len() && t[i] == w;
                assert(s[i] == w);
            }
            if s.last() == w {
                assert(s[s.len() - 1] == w);
            }
        }
        if s.last() == w {
            assert(!t.contains(w)) by {
                if t.contains(w) {
                    let i = choose|i: int| 0 <= i < t.len() && t[i] == w;
                    assert(s[i] == s[s.len() - 1]);
                }
            }
        }
    }
}

proof fn lemma_hide_hidden_count(v: RegistryView, n: int, h: int, w: Window)
    requires
        v.wf(),
        0 <= n <= v.workspaces.len(),
        v.hidden(h),
        v.workspaces[h].windows.contains(w),
    ensures
        occurrences(hide_hidden(v, n), Command::Hide(w)) == if h < n { 1nat } else { 0nat },
        forall|k: int| 0 <= k < hide_hidden(v, n).len() ==> !displays(#[trigger] hide_hidden(v, n)[k], w),
    decreases n,
{
    if n > 0 {
        lemma_hide_hidden_count(v, n - 1, h, w);
        if v.hidden(n - 1) {
            let s = v.workspaces[n - 1].windows;
            assert(v.workspaces[n - 1].wf());
            lemma_hide_all_count(s, w);
            lemma_occurrences_add(hide_hidden(v, n - 1), hide_all(s), Command::Hide(w));
            if n - 1 != h {
                assert(!s.contains(w));
            }
        }
    }
}

/// Every window of a hidden workspace receives exactly one hide command per
/// reapply, and no command that shows, resizes, moves or borders it.
pub proof fn lemma_hidden_window_hidden_once(v: RegistryView, border: u32, h: int, w: Window)
    requires
        v.wf(),
        v.hidden(h),
        v.workspaces[h].windows.contains(w),
    ensures
        occurrences(layout_commands(v, border), Command::Hide(w)) == 1,
        forall|k: int| 0 <= k < layout_commands(v, border).len()
            ==> !displays(#[trigger] layout_commands(v, border)[k], w),
{
    let c = v.current.workspace as int;
    let cw = v.current_workspace();
    let ps = current_placements(v);
    assert(cw.wf());
    assert(!cw.windows.contains(w));
    assert forall|k: int| 0 <= k < ps.len() implies (#[trigger] ps[k]).0 != w by {
        match cw.layout {
            Layout::Tall => {
                assert(ps[k].0 == cw.windows[k]);
            },
            Layout::Full => {
                assert(ps[k].0 == cw.windows[cw.focus]);
            },
        }
    }
    lemma_place_all_avoids(ps, border, w);
    lemma_hide_hidden_count(v, v.workspaces.len() as int, h, w);
    let shown = place_all(ps, border);
    let hidden = hide_hidden(v, v.workspaces.len() as int);
    lemma_occurrences_add(shown, hidden, Command::Hide(w));
    assert forall|k: int| 0 <= k < (shown + hidden).len() implies !displays(#[trigger] (shown + hidden)[k], w) by {
        if k < shown.len() {
            assert((shown + hidden)[k] == shown[k]);
        } else {
            assert((shown + hidden)[k] == hidden[k - shown.len()]);
        }
    }
}

/// The window manager: it owns the workspace registry, applies lifecycle
/// events to it, and answers each change with the commands that display it.
#[derive(Debug)]
pub struct WindowManager {
    workspaces: Workspaces,
}

impl WindowManager {
    /// The registry that the window manager holds.
    pub closed spec fn model(&self) -> RegistryView {
        self.workspaces@
    }

    pub open spec fn wf(&self) -> bool {
        self.model().wf()
    }

    /// Starts with one workspace per tag, all with the `Tall` layout and no
    /// windows. The first screen is current and shows the first workspace;
    /// screen `k` shows workspace `k`; the other workspaces are hidden.
    pub fn new(screens: Vec<Rectangle>, config: &Config) -> (r: WindowManager)
        requires
            1 <= screens.len() <= config.tags.len(),
            forall|k: int| 0 <= k < screens.len() ==> (#[trigger] screens@[k]).fits(),
            forall|i: int, j: int| 0 <= i < config.tags.len() && 0 <= j < config.tags.len() && i != j
                ==> (#[trigger] config.tags@[i])@ != (#[trigger] config.tags@[j])@,
        ensures
            r.wf(),
            r.model().workspaces.len() == config.tags.len(),
            forall|i: int| 0 <= i < config.tags.len() ==> {
                &&& (#[trigger] r.model().workspaces[i]).tag == config.tags@[i]@
                &&& r.model().workspaces[i].layout == Layout::Tall
                &&& r.model().workspaces[i].windows.len() == 0
            },
            r.model().current.detail == screens@[0],
            r.model().current.workspace == 0,
            r.model().visible == Seq::new((screens.len() - 1) as nat,
                |k: int| crate::workspaces::Screen { detail: screens@[k + 1], workspace: (k + 1) as usize }),
    {
        WindowManager { workspaces: Workspaces::new(Layout::Tall, &config.tags, &screens) }
    }

    /// Whether `window` is in some workspace's stack.
    pub fn is_window_managed(&self, window: Window) -> (r: bool)
        ensures
            r == self.model().managed(window),
    {
        self.workspaces.contains(window)
    }

    /// Makes workspace `index` current (see [`RegistryView::view`]) and
    /// returns the commands that display the result. An index that names no
    /// workspace is refused and changes nothing.
    pub fn view(&mut self, index: usize, config: &Config) -> (r: Result<Vec<Command>, ViewError>)
        requires
            old(self).wf(),
        ensures
            final(self).wf(),
            match r {
                Ok(cmds) => {
                    &&& index < old(self).model().workspaces.len()
                    &&& final(self).model() == old(self).model().view(index as int)
                    &&& cmds@ == layout_commands(final(self).model(), config.border_width)
                },
                Err(e) => {
                    &&& e == ViewError::InvalidIndex
                    &&& index >= old(self).model().workspaces.len()
                    &&& final(self).model() == old(self).model()
                },
            },
    {
        if index >= self.workspaces.len() {
            return Err(ViewError::InvalidIndex);
        }
        proof {
            self.model().lemma_view(index as int);
        }
        self.workspaces.switch_to(index);
        Ok(self.reapply_layout(config))
    }

    /// Puts `window` into the current workspace above the focus, focused, and
    /// returns the commands that display the result. A window that is
    /// already managed is left where it is, and no commands are returned.
    pub fn manage(&mut self, window: Window, config: &Config) -> (r: Vec<Command>)
        requires
            old(self).wf(),
        ensures
            final(self).wf(),
            final(self).model() == old(self).model().add(window),
            r@ == if old(self).model().managed(window) {
                Seq::empty()
            } else {
                layout_commands(final(self).model(), config.border_width)
            },
    {
        proof {
            self.model().lemma_add(window);
        }
        if self.workspaces.contains(window) {
            return Vec::new();
        }
        self.workspaces.add(window);
        self.reapply_layout(config)
    }

    /// Removes `window` from whichever stack holds it and returns the
    /// commands that display the result. A window that is not managed changes
    /// nothing, and no commands are returned.
    pub fn unmanage(&mut self, window: Window, config: &Config) -> (r: Vec<Command>)
        requires
            old(self).wf(),
        ensures
            final(self).wf(),
            final(self).model() == old(self).model().delete(window),
            r@ == if old(self).model().managed(window) {
                layout_commands(final(self).model(), config.border_width)
            } else {
                Seq::empty()
            },
    {
        proof {
            self.model().lemma_delete(window);
        }
        if !self.workspaces.contains(window) {
            proof {
                self.model().lemma_delete_absent(window);
            }
            return Vec::new();
        }
        self.workspaces.delete(window);
        self.reapply_layout(config)
    }

    /// The number of workspaces.
    pub fn workspace_count(&self) -> (r: usize)
        ensures
            r == self.model().workspaces.len(),
    {
        self.workspaces.len()
    }

    /// The index of the workspace on the current screen.
    pub fn current_workspace(&self) -> (r: usize)
        ensures
            r == self.model().current.workspace,
    {
        self.workspaces.current().workspace
    }

    /// The current screen's rectangle.
    pub fn current_screen(&self) -> (r: Rectangle)
        ensures
            r == self.model().current.detail,
    {
        self.workspaces.current().detail
    }

    /// Whether workspace `index` is bound to no screen.
    pub fn is_hidden(&self, index: usize) -> (r: bool)
        requires
            self.wf(),
        ensures
            r == self.model().hidden(index as int),
    {
        index < self.workspaces.len() && !self.workspaces.is_bound(index)
    }

    /// The windows of workspace `index`, in stack order.
    pub fn windows(&self, index: usize) -> (r: &Vec<Window>)
        requires
            index < self.model().workspaces.len(),
        ensures
            r@ == self.model().workspaces[index as int].windows,
    {
        &self.workspaces.workspace(index).windows
    }

    /// The position of the focused window of workspace `index`.
    pub fn focus(&self, index: usize) -> (r: usize)
        requires
            index < self.model().workspaces.len(),
        ensures
            r == self.model().workspaces[index as int].focus,
    {
        self.workspaces.workspace(index).focus
    }

    /// The tag of workspace `index`.
    pub fn tag(&self, index: usize) -> (r: &String)
        requires
            index < self.model().workspaces.len(),
        ensures
            r@ == self.model().workspaces[index as int].tag,
    {
        &self.workspaces.workspace(index).tag
    }

    /// The layout of workspace `index`.
    pub fn layout(&self, index: usize) -> (r: Layout)
        requires
            index < self.model().workspaces.len(),
        ensures
            r == self.model().workspaces[index as int].layout,
    {
        self.workspaces.workspace(index).layout
    }

    /// Gives workspace `index` another layout; nothing else changes. The
    /// display is brought up to date by the next reapply.
    pub fn set_layout(&mut self, index: usize, layout: Layout) -> (r: Result<(), ViewError>)
        requires
            old(self).wf(),
        ensures
            final(self).wf(),
            r is Ok <==> index < old(self).model().workspaces.len(),
            r is Ok ==> final(self).model() == (RegistryView {
                workspaces: old(self).model().workspaces.update(index as int,
                    crate::workspaces::WorkspaceView { layout, ..old(self).model().workspaces[index as int] }),
                ..old(self).model()
            }),
            r is Err ==> final(self).model() == old(self).model(),
    {
        if index >= self.workspaces.len() {
            return Err(ViewError::InvalidIndex);
        }
        self.workspaces.set_layout(index, layout);
        Ok(())
    }

    /// Appends the commands that show each placed window.
    fn push_placements(out: &mut Vec<Command>, ps: &Vec<(Window, Rectangle)>, border: u32)
        ensures
            final(out)@ == old(out)@ + place_all(ps@, border),
    {
        let ghost start = out@;
        let mut i: usize = 0;
        while i < ps.len()
            invariant
                i <= ps.len(),
                out@ == start + place_all(ps@.subrange(0, i as int), border),
            decreases ps.len() - i,
        {
            let (w, r) = ps[i];
            let b = border as i64;
            out.push(Command::Show(w));
            out.push(Command::Resize(w, r.width as i64 - 2 * b, r.height as i64 - 2 * b));
            out.push(Command::Move(w, r.x, r.y));
            out.push(Command::SetBorderWidth(w, border));
            proof {
                let next = ps@.subrange(0, i + 1);
                assert(next.drop_last() =~= ps@.subrange(0, i as int));
                assert(next.last() == (w, r));
                assert(out@ =~= start + place_all(next, border));
            }
            i = i + 1;
        }
        assert(ps@.subrange(0, ps.len() as int) =~= ps@);
    }

    /// Appends a hide command for each window of a stack.
    fn push_hides(out: &mut Vec<Command>, windows: &Vec<Window>)
        ensures
            final(out)@ == old(out)@ + hide_all(windows@),
    {
        let ghost start = out@;
        let mut k: usize = 0;
        while k < windows.len()
            invariant
                k <= windows.len(),
                out@ =~= start + hide_all(windows@.subrange(0, k as int)),
            decreases windows.len() - k,
        {
            out.push(Command::Hide(windows[k]));
            k = k + 1;
            assert(out@ =~= start + hide_all(windows@.subrange(0, k as int)));
        }
        assert(windows@.subrange(0, windows.len() as int) =~= windows@);
    }

    /// Computes the full command sequence for the present state: the current
    /// workspace laid out on the current screen, then a hide command for each
    /// window of each hidden workspace.
    pub fn reapply_layout(&self, config: &Config) -> (r: Vec<Command>)
        requires
            self.wf(),
        ensures
            r@ == layout_commands(self.model(), config.border_width),
    {
        let ghost v = self.model();
        let screen = self.workspaces.current();
        let ws = self.workspaces.workspace(screen.workspace);
        let placements = ws.layout.apply_layout(screen.detail, &ws.windows, ws.focus);
        let mut out: Vec<Command> = Vec::new();
        Self::push_placements(&mut out, &placements, config.border_width);
        let ghost shown = out@;
        let n = self.workspaces.len();
        let mut i: usize = 0;
        while i < n
            invariant
                v == self.model(),
                v.wf(),
                n == v.workspaces.len(),
                i <= n,
                out@ == shown + hide_hidden(v, i as int),
            decreases n - i,
        {
            if !self.workspaces.is_bound(i) {
                let ws = self.workspaces.workspace(i);
                Self::push_hides(&mut out, &ws.windows);
            }
            proof {
                assert(out@ =~= shown + hide_hidden(v, i + 1));
            }
            i = i + 1;
        }
        out
    }
}

} // verus!
