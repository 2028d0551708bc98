//! The sizes and frame rates that a capture device is asked for, one after the other.
use vstd::prelude::*;

verus! {

/// A size and a frame rate.
#[derive(Debug, Clone, Copy, PartialEq, Eq, Structural)]
pub struct CaptureMode {
    pub width: u32,
    pub height: u32,
    pub fps: u32,
}

/// The sizes that the resolutions stand for, the largest first.
pub open spec fn known_sizes() -> Seq<(u32, u32)> {
    seq![(3840u32, 2160u32), (2560u32, 1440u32), (1920u32, 1080u32), (1280u32, 720u32)]
}

/// The frame rates to choose from, the highest first.
pub open spec fn known_rates() -> Seq<u32> {
    seq![120u32, 60u32, 30u32]
}

/// Size `a` is lower than `b`: smaller in one direction and no larger in the other.
pub open spec fn lower_size(a: (u32, u32), b: (u32, u32)) -> bool {
    a.0 <= b.0 && a.1 <= b.1 && a != b
}

/// `entry` where it is wanted, else nothing.
pub open spec fn only<A>(entry: A, wanted: bool) -> Seq<A> {
    if wanted {
        seq![entry]
    } else {
        seq![]
    }
}

/// The requested size, then each lower known size.
pub open spec fn sizes_from(size: (u32, u32)) -> Seq<(u32, u32)> {
    seq![size] + only((3840u32, 2160u32), lower_size((3840, 2160), size)) + only(
        (2560u32, 1440u32),
        lower_size((2560, 1440), size),
    ) + only((1920u32, 1080u32), lower_size((1920, 1080), size)) + only(
        (1280u32, 720u32),
        lower_size((1280, 720), size),
    )
}

/// The requested frame rate, then each lower known one.
pub open spec fn rates_from(fps: u32) -> Seq<u32> {
    seq![fps] + only(120u32, 120 < fps) + only(60u32, 60 < fps) + only(30u32, 30 < fps)
}

/// The modes to ask a device for, in order: the requested size at the requested frame rate and
/// at each lower one, then each lower size in the same way.
pub open spec fn modes(requested: CaptureMode) -> Seq<CaptureMode> {
    let sizes = sizes_from((requested.width, requested.height));
    let rates = rates_from(requested.fps);
    Seq::new(
        sizes.len() * rates.len(),
        |i: int|
            CaptureMode {
                width: sizes[i / rates.len() as int].0,
                height: sizes[i / rates.len() as int].1,
                fps: rates[i % (rates.len() as int)],
            },
    )
}

/// Size `a` is lower than `b`.
fn is_lower(a: (u32, u32), b: (u32, u32)) -> (lower: bool)
    ensures
        lower == lower_size(a, b),
{
    a.0 <= b.0 && a.1 <= b.1 && (a.0 != b.0 || a.1 != b.1)
}

/// The requested size, then each lower known size.
fn size_list(size: (u32, u32)) -> (sizes: Vec<(u32, u32)>)
    ensures
        sizes@ == sizes_from(size),
{
    let mut sizes: Vec<(u32, u32)> = Vec::new();
    sizes.push(size);
    if is_lower((3840, 2160), size) {
        sizes.push((3840, 2160));
    }
    if is_lower((2560, 1440), size) {
        sizes.push((2560, 1440));
    }
    if is_lower((1920, 1080), size) {
        sizes.push((1920, 1080));
    }
    if is_lower((1280, 720), size) {
        sizes.push((1280, 720));
    }
    assert(sizes@ =~= sizes_from(size));
    sizes
}

/// The requested frame rate, then each lower known one.
fn rate_list(fps: u32) -> (rates: Vec<u32>)
    ensures
        rates@ == rates_from(fps),
{
    let mut rates: Vec<u32> = Vec::new();
    rates.push(fps);
    if 120 < fps {
        rates.push(120);
    }
    if 60 < fps {
        rates.push(60);
    }
    if 30 < fps {
        rates.push(30);
    }
    assert(rates@ =~= rates_from(fps));
    rates
}

/// Entry `column` of row `row` stands at `row * width + column`.
pub proof fn lemma_place(row: int, column: int, width: int, rows: int)
    requires
        0 <= row < rows,
        0 <= column < width,
    ensures
        (row * width + column) / width == row,
        (row * width + column) % width == column,
        0 <= row * width + column < rows * width,
{
    vstd::arithmetic::div_mod::lemma_fundamental_div_mod_converse(
        row * width + column,
        width,
        row,
        column,
    );
    assert(0 <= row * width + column < rows * width) by (nonlinear_arith)
        requires
            0 <= row < rows,
            0 <= column < width,
    ;
}

/// The modes to ask a device for, in order.
pub fn mode_list(requested: CaptureMode) -> (list: Vec<CaptureMode>)
    ensures
        list@ == modes(requested),
        list@.len() >= 1,
        list@[0] == requested,
        list@.no_duplicates(),
        forall|i: int|
            0 <= i < list@.len() ==> (#[trigger] list@[i]).width <= requested.width
                && list@[i].height <= requested.height && list@[i].fps <= requested.fps,
{
    let sizes = size_list((requested.width, requested.height));
    let rates = rate_list(requested.fps);
    let ghost all = modes(requested);
    let ghost columns = rates@.len() as int;
    let ghost rows = sizes@.len() as int;
    let mut list: Vec<CaptureMode> = Vec::new();
    let mut s: usize = 0;
    while s < sizes.len()
        invariant
            s <= sizes.len(),
            sizes@ == sizes_from((requested.width, requested.height)),
            rates@ == rates_from(requested.fps),
            all == modes(requested),
            columns == rates@.len(),
            rows == sizes@.len(),
            all.len() == rows * columns,
            list@ == all.take(s * columns),
            0 <= s * columns <= rows * columns,
        decreases sizes.len() - s,
    {
        let mut r: usize = 0;
        proof {
            assert((s + 1) * columns <= rows * columns) by (nonlinear_arith)
                requires
                    s + 1 <= rows,
                    0 <= columns,
            ;
            assert((s + 1) * columns == s * columns + columns) by (nonlinear_arith);
        }
        while r < rates.len()
            invariant
                r <= rates.len(),
                s < sizes.len(),
                sizes@ == sizes_from((requested.width, requested.height)),
                rates@ == rates_from(requested.fps),
                all == modes(requested),
                columns == rates@.len(),
                rows == sizes@.len(),
                all.len() == rows * columns,
                list@ == all.take(s * columns + r),
                0 <= s * columns,
                (s + 1) * columns == s * columns + columns,
                (s + 1) * columns <= rows * columns,
            decreases rates.len() - r,
        {
            proof {
                lemma_place(s as int, r as int, columns, rows);
            }
            list.push(CaptureMode { width: sizes[s].0, height: sizes[s].1, fps: rates[r] });
            assert(list@ =~= all.take(s * columns + r + 1));
            r += 1;
        }
        s += 1;
    }
    assert(all.take(rows * columns) =~= all);
    proof {
        lemma_place(0, 0, columns, rows);
        assert forall|i: int| 0 <= i < all.len() implies (#[trigger] all[i]).width
            <= requested.width && all[i].height <= requested.height && all[i].fps
            <= requested.fps by {
            law_modes_only_go_down(requested, i);
        }
        law_modes_only_go_down(requested, 0);
    }
    list
}

/// The requested mode is asked for first. Every other mode is asked for once, and is lower in its
/// size or its frame rate and higher in neither.
pub proof fn law_modes_only_go_down(requested: CaptureMode, i: int)
    requires
        0 <= i < modes(requested).len(),
    ensures
        modes(requested)[0] == requested,
        i > 0 ==> modes(requested)[i] != requested,
        modes(requested)[i].width <= requested.width,
        modes(requested)[i].height <= requested.height,
        modes(requested)[i].fps <= requested.fps,
        modes(requested).no_duplicates(),
{
    let all = modes(requested);
    let sizes = sizes_from((requested.width, requested.height));
    let rates = rates_from(requested.fps);
    let rows = sizes.len() as int;
    let columns = rates.len() as int;
    lemma_place(0, 0, columns, rows);
    assert(sizes.no_duplicates());
    assert(rates.no_duplicates());
    lemma_position_of(i, rows, columns);
    assert forall|a: int, b: int| 0 <= a < all.len() && 0 <= b < all.len() && a != b implies all[a]
        != all[b] by {
        lemma_position_of(a, rows, columns);
        lemma_position_of(b, rows, columns);
        if a / columns == b / columns {
            assert(a % columns != b % columns);
            assert(rates[a % columns] != rates[b % columns]);
        } else {
            assert(sizes[a / columns] != sizes[b / columns]);
        }
    }
    assert(all[0] == requested);
}

/// Place `i` lies in row `i / columns` and column `i % columns`.
proof fn lemma_position_of(i: int, rows: int, columns: int)
    requires
        0 <= i < rows * columns,
        0 < columns,
    ensures
        0 <= i / columns < rows,
        0 <= i % columns < columns,
        i == columns * (i / columns) + i % columns,
{
    vstd::arithmetic::div_mod::lemma_fundamental_div_mod(i, columns);
    let row = i / columns;
    let column = i % columns;
    assert(0 <= row < rows) by (nonlinear_arith)
        requires
            i == columns * row + column,
            0 <= column < columns,
            0 <= i < rows * columns,
    ;
}

/// Every lower known size is asked for, at the requested frame rate and at every lower known one;
/// so is the requested size.
pub proof fn law_every_lower_mode_is_asked_for(requested: CaptureMode, mode: CaptureMode)
    requires
        (mode.width, mode.height) == (requested.width, requested.height) || known_sizes().contains(
            (mode.width, mode.height),
        ) && lower_size((mode.width, mode.height), (requested.width, requested.height)),
        mode.fps == requested.fps || known_rates().contains(mode.fps) && mode.fps < requested.fps,
    ensures
        modes(requested).contains(mode),
{
    let size = (mode.width, mode.height);
    let sizes = sizes_from((requested.width, requested.height));
    let rates = rates_from(requested.fps);
    lemma_sizes_hold((requested.width, requested.height), size);
    lemma_rates_hold(requested.fps, mode.fps);
    let row = choose|k: int| 0 <= k < sizes.len() && sizes[k] == size;
    let column = choose|k: int| 0 <= k < rates.len() && rates[k] == mode.fps;
    lemma_place(row, column, rates.len() as int, sizes.len() as int);
    assert(modes(requested)[row * rates.len() + column] == mode);
}

/// The sizes hold the requested one and every lower known one.
proof fn lemma_sizes_hold(requested: (u32, u32), size: (u32, u32))
    requires
        size == requested || known_sizes().contains(size) && lower_size(size, requested),
    ensures
        sizes_from(requested).contains(size),
{
    let a = seq![requested] + only((3840u32, 2160u32), lower_size((3840, 2160), requested));
    let b = a + only((2560u32, 1440u32), lower_size((2560, 1440), requested));
    let c = b + only((1920u32, 1080u32), lower_size((1920, 1080), requested));
    let all = sizes_from(requested);
    if size == requested {
        assert(all[0] == size);
    } else if size == (3840u32, 2160u32) {
        assert(all[1] == size);
    } else if size == (2560u32, 1440u32) {
        assert(all[a.len() as int] == size);
    } else if size == (1920u32, 1080u32) {
        assert(all[b.len() as int] == size);
    } else {
        assert(all[c.len() as int] == size);
    }
}

/// The frame rates hold the requested one and every lower known one.
proof fn lemma_rates_hold(requested: u32, fps: u32)
    requires
        fps == requested || known_rates().contains(fps) && fps < requested,
    ensures
        rates_from(requested).contains(fps),
{
    let a = seq![requested] + only(120u32, 120 < requested);
    let b = a + only(60u32, 60 < requested);
    let all = rates_from(requested);
    if fps == requested {
        assert(all[0] == fps);
    } else if fps == 120 {
        assert(all[1] == fps);
    } else if fps == 60 {
        assert(all[a.len() as int] == fps);
    } else {
        assert(all[b.len() as int] == fps);
    }
}

/// The size of every mode is the requested one or a known one.
pub proof fn lemma_sizes_are_known(size: (u32, u32), fps: u32, i: int)
    requires
        0 <= i < modes(CaptureMode { width: size.0, height: size.1, fps }).len(),
    ensures
        ({
            let mode = modes(CaptureMode { width: size.0, height: size.1, fps })[i];
            (mode.width, mode.height) == size || known_sizes().contains((mode.width, mode.height))
        }),
{
    let sizes = sizes_from(size);
    let rates = rates_from(fps);
    lemma_position_of(i, sizes.len() as int, rates.len() as int);
    let found = sizes[i / rates.len() as int];
    let known = known_sizes();
    assert(known[0] == (3840u32, 2160u32) && known[1] == (2560u32, 1440u32));
    assert(known[2] == (1920u32, 1080u32) && known[3] == (1280u32, 720u32));
    assert(found == size || found == known[0] || found == known[1] || found == known[2] || found
        == known[3]);
}

/// A size is lower than another where neither its width nor its height is larger and one of them
/// is smaller.
pub proof fn law_lower_sizes(a: (u32, u32), b: (u32, u32))
    ensures
        lower_size(a, b) == (a.0 < b.0 && a.1 <= b.1 || a.0 <= b.0 && a.1 < b.1),
{
}

/// The frame rates start with the requested one and go down; behind it stand just those of 120, 60
/// and 30 that are lower.
pub proof fn law_frame_rates_go_down(fps: u32, rate: u32)
    ensures
        rates_from(fps)[0] == fps,
        forall|i: int, j: int|
            0 <= i < j < rates_from(fps).len() ==> #[trigger] rates_from(fps)[i]
                > #[trigger] rates_from(fps)[j],
        rates_from(fps).contains(rate) <==> rate == fps || rate < fps && (rate == 120 || rate == 60
            || rate == 30),
{
    let known = known_rates();
    assert(known[0] == 120 && known[1] == 60 && known[2] == 30);
    if rate == fps || rate < fps && (rate == 120 || rate == 60 || rate == 30) {
        assert(known.contains(120) && known.contains(60) && known.contains(30));
        lemma_rates_hold(fps, rate);
    }
}

/// The sizes start with the requested one and go down; behind it stand just those of 3840x2160,
/// 2560x1440, 1920x1080 and 1280x720 that are lower.
pub proof fn law_sizes_go_down(size: (u32, u32), other: (u32, u32))
    ensures
        sizes_from(size)[0] == size,
        forall|i: int, j: int|
            0 <= i < j < sizes_from(size).len() ==> lower_size(
                #[trigger] sizes_from(size)[j],
                #[trigger] sizes_from(size)[i],
            ),
        sizes_from(size).contains(other) <==> other == size || lower_size(other, size) && (other == (
        3840u32,
        2160u32,
        ) || other == (2560u32, 1440u32) || other == (1920u32, 1080u32) || other == (
        1280u32,
        720u32,
        )),
{
    let known = known_sizes();
    assert(known[0] == (3840u32, 2160u32) && known[1] == (2560u32, 1440u32));
    assert(known[2] == (1920u32, 1080u32) && known[3] == (1280u32, 720u32));
    if other == size || lower_size(other, size) && (other == known[0] || other == known[1] || other
        == known[2] || other == known[3]) {
        assert(known.contains(known[0]) && known.contains(known[1]) && known.contains(known[2])
            && known.contains(known[3]));
        lemma_sizes_hold(size, other);
    }
}

/// Every frame rate is tried for one size before the next size is.
pub proof fn law_frame_rates_go_down_before_sizes(requested: CaptureMode, s: int, r: int)
    requires
        0 <= s < sizes_from((requested.width, requested.height)).len(),
        0 <= r < rates_from(requested.fps).len(),
    ensures
        ({
            let sizes = sizes_from((requested.width, requested.height));
            let rates = rates_from(requested.fps);
            &&& modes(requested).len() == sizes.len() * rates.len()
            &&& modes(requested)[s * rates.len() + r] == (CaptureMode {
                width: sizes[s].0,
                height: sizes[s].1,
                fps: rates[r],
            })
        }),
{
    let sizes = sizes_from((requested.width, requested.height));
    let rates = rates_from(requested.fps);
    lemma_place(s, r, rates.len() as int, sizes.len() as int);
}

}
