use vstd::prelude::*;
use crate::geometry::{Rectangle, Window};

verus! {

/// The layout strategies a workspace can use.
#[derive(Clone, Copy, Debug, PartialEq, Eq, Structural)]
pub enum Layout {
    /// The first window takes the left half; the others share the right half
    /// in equal horizontal bands. A lone window takes the whole screen.
    Tall,
    /// The focused window takes the whole screen; the others are not shown.
    Full,
}

/// Where `Tall` puts window `i` of `n` on `screen`.
pub open spec fn tall_cell(screen: Rectangle, n: int, i: int) -> Rectangle {
    if n <= 1 {
        screen
    } else if i == 0 {
        Rectangle { x: screen.x, y: screen.y, width: (screen.width / 2) as u32, height: screen.height }
    } else {
        let band = screen.height as int / (n - 1);
        Rectangle {
            x: (screen.x + screen.width / 2) as u32,
            y: (screen.y + (i - 1) * band) as u32,
            width: (screen.width - screen.width / 2) as u32,
            height: band as u32,
        }
    }
}

/// The placements a layout assigns to `windows` (focused at `focus`) on `screen`,
/// in the order in which they are to be shown.
pub open spec fn arrange(layout: Layout, screen: Rectangle, windows: Seq<Window>, focus: int) -> Seq<(Window, Rectangle)> {
    match layout {
        Layout::Tall => Seq::new(windows.len(), |i: int| (windows[i], tall_cell(screen, windows.len() as int, i))),
        Layout::Full => if windows.len() == 0 {
            Seq::empty()
        } else {
            seq![(windows[focus], screen)]
        },
    }
}

proof fn lemma_band_fits(height: int, n: int, i: int)
    requires
        0 <= height,
        2 <= n,
        1 <= i < n,
    ensures
        0 <= (i - 1) * (height / (n - 1)),
        (i - 1) * (height / (n - 1)) + height / (n - 1) <= height,
        height / (n - 1) <= height,
{
    let m = n - 1;
    let b = height / m;
    assert(0 <= b <= height) by (nonlinear_arith)
        requires 0 <= height, 1 <= m, b == height / m;
    assert(0 <= (i - 1) * b) by (nonlinear_arith)
        requires 0 <= b, 1 <= i;
    assert((i - 1) * b + b == i * b) by (nonlinear_arith);
    assert(i * b <= m * b) by (nonlinear_arith)
        requires 0 <= b, i <= m;
    assert(m * b <= height) by (nonlinear_arith)
        requires 0 <= height, 1 <= m, b == height / m;
}

/// Every cell of `Tall` lies within the screen.
pub proof fn lemma_tall_cell_within(screen: Rectangle, n: int, i: int)
    requires
        screen.fits(),
        0 <= i < n,
    ensures
        screen.encloses(tall_cell(screen, n, i)),
{
    if n > 1 && i > 0 {
        lemma_band_fits(screen.height as int, n, i);
    }
}

impl Layout {
    /// Every placement that the layout produces lies within the screen.
    pub proof fn lemma_arrange_within(self, screen: Rectangle, windows: Seq<Window>, focus: int)
        requires
            screen.fits(),
        ensures
            forall|k: int| 0 <= k < arrange(self, screen, windows, focus).len()
                ==> screen.encloses(#[trigger] arrange(self, screen, windows, focus)[k].1),
    {
        assert forall|k: int| 0 <= k < arrange(self, screen, windows, focus).len()
            implies screen.encloses(#[trigger] arrange(self, screen, windows, focus)[k].1) by {
            if self == Layout::Tall {
                lemma_tall_cell_within(screen, windows.len() as int, k);
            }
        }
    }

    /// Computes the placement of each window of a stack on `screen`.
    pub fn apply_layout(&self, screen: Rectangle, windows: &Vec<Window>, focus: usize) -> (r: Vec<(Window, Rectangle)>)
        requires
            screen.fits(),
            windows.len() == 0 || focus < windows.len(),
        ensures
            r@ == arrange(*self, screen, windows@, focus as int),
    {
        let n = windows.len();
        let mut r: Vec<(Window, Rectangle)> = Vec::new();
        match self {
            Layout::Full => {
                if n > 0 {
                    r.push((windows[focus], screen));
                }
                proof {
                    assert(r@ =~= arrange(*self, screen, windows@, focus as int));
                }
            }
            Layout::Tall => {
                let mut i: usize = 0;
                while i < n
                    invariant
                        n == windows.len(),
                        screen.fits(),
                        i <= n,
                        r@ =~= Seq::new(i as nat, |k: int| (windows@[k], tall_cell(screen, n as int, k))),
                    decreases n - i,
                {
                    let cell = if n == 1 {
                        screen
                    } else if i == 0 {
                        Rectangle { x: screen.x, y: screen.y, width: screen.width / 2, height: screen.height }
                    } else {
                        proof {
                            lemma_band_fits(screen.height as int, n as int, i as int);
                        }
                        let band: u64 = screen.height as u64 / ((n - 1) as u64);
                        let offset: u64 = ((i - 1) as u64) * band;
                        Rectangle {
                            x: screen.x + screen.width / 2,
                            y: screen.y + offset as u32,
                            width: screen.width - screen.width / 2,
                            height: band as u32,
                        }
                    };
                    r.push((windows[i], cell));
                    i = i + 1;
                }
                proof {
                    assert(r@ =~= arrange(*self, screen, windows@, focus as int));
                }
            }
        }
        r
    }
}

} // verus!
