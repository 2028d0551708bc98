//! What is captured, and the pixel formats that a capture device is asked for.
use vstd::prelude::*;

use crate::text::same;

verus! {

/// How a frame's planes hold its pixels.
#[derive(Debug, Clone, Copy, PartialEq, Eq, Structural)]
pub enum PixelFormat {
    /// A luma plane and one plane of interleaved chroma pairs at half the height.
    Nv12,
    /// A luma plane and two chroma planes at half the width and the full height.
    Yuvj422p,
}

/// A frame of video.
#[derive(Debug, Clone)]
pub struct CaptureFrame {
    pub width: u32,
    pub height: u32,
    pub format: PixelFormat,
    pub y_data: Vec<u8>,
    pub u_data: Vec<u8>,
    pub v_data: Vec<u8>,
}

/// How fast frames arrive. The rate is given by the bit pattern of a 32-bit float.
#[derive(Debug, Clone, Copy, PartialEq, Eq, Structural)]
pub struct CaptureStats {
    pub fps_bits: u32,
    pub width: u32,
    pub height: u32,
}

/// What to capture.
#[derive(Debug, Clone)]
pub struct CaptureConfig {
    pub width: u32,
    pub height: u32,
    pub fps: u32,
    pub source: CaptureSource,
}

/// Where frames come from.
#[derive(Debug, Clone)]
pub enum CaptureSource {
    TestPattern { alternate_formats: bool, force_format: Option<PixelFormat> },
    DirectShow { device_name: String, pixel_format: String, decode_threads: usize },
}

impl CaptureConfig {
    /// The frame rate to run at: at least one frame a second.
    pub fn effective_fps(&self) -> (fps: u32)
        ensures
            fps == if self.fps == 0 {
                1
            } else {
                self.fps
            },
    {
        if self.fps == 0 {
            1
        } else {
            self.fps
        }
    }
}

/// What the pixel format attempts stand for: a format by its name, or the device's own choice.
pub open spec fn labels(attempts: Seq<Option<String>>) -> Seq<Option<Seq<char>>> {
    attempts.map_values(
        |attempt: Option<String>|
            match attempt {
                Some(name) => Some(name@),
                None => None,
            },
    )
}

/// The formats to try for a device that was asked for `requested`, with repetitions.
pub open spec fn candidates(requested: Seq<char>) -> Seq<Option<Seq<char>>> {
    seq![
        Some(requested),
        Some("mjpeg"@),
        Some("nv12"@),
        Some("yuyv422"@),
        Some("uyvy422"@),
        Some("yuv420p"@),
        None,
    ]
}

/// `list` with only the first of equal entries kept.
pub open spec fn without_repetitions(list: Seq<Option<Seq<char>>>) -> Seq<Option<Seq<char>>>
    decreases list.len(),
{
    if list.len() == 0 {
        seq![]
    } else {
        let before = without_repetitions(list.drop_last());
        if before.contains(list.last()) {
            before
        } else {
            before.push(list.last())
        }
    }
}

/// Appends `value` to the attempts unless it is among them.
fn push_unique(attempts: &mut Vec<Option<String>>, value: Option<&str>)
    ensures
        ({
            let label = match value {
                Some(name) => Some(name@),
                None => None,
            };
            labels(final(attempts)@) == if labels(old(attempts)@).contains(label) {
                labels(old(attempts)@)
            } else {
                labels(old(attempts)@).push(label)
            }
        }),
{
    let ghost label = match value {
        Some(name) => Some(name@),
        None => None,
    };
    let ghost before = attempts@;
    let mut i: usize = 0;
    while i < attempts.len()
        invariant
            i <= attempts.len(),
            attempts@ == before,
            label == (match value {
                Some(name) => Some(name@),
                None => None,
            }),
            forall|j: int| 0 <= j < i ==> #[trigger] labels(before)[j] != label,
        decreases attempts.len() - i,
    {
        let equal = match (&attempts[i], value) {
            (Some(existing), Some(name)) => same(existing.as_str(), name),
            (None, None) => true,
            _ => false,
        };
        if equal {
            assert(labels(before)[i as int] == label);
            return ;
        }
        i += 1;
    }
    assert(!labels(before).contains(label));
    match value {
        Some(name) => attempts.push(Some(name.to_owned())),
        None => attempts.push(None),
    }
    assert(labels(attempts@) =~= labels(before).push(label));
}

/// The pixel formats to ask the device for, in order: the requested one, the common ones, and
/// at last whatever the device chooses.
pub fn pixel_format_attempts(requested_pixel_format: &str) -> (attempts: Vec<Option<String>>)
    ensures
        labels(attempts@) == without_repetitions(candidates(requested_pixel_format@)),
        labels(attempts@) == seq![Some(requested_pixel_format@)] + seq![
            Some("mjpeg"@),
            Some("nv12"@),
            Some("yuyv422"@),
            Some("uyvy422"@),
            Some("yuv420p"@),
            None,
        ].filter(|format: Option<Seq<char>>| format != Some(requested_pixel_format@)),
{
    let mut attempts: Vec<Option<String>> = Vec::new();
    let ghost all = candidates(requested_pixel_format@);
    proof {
        reveal_with_fuel(without_repetitions, 8);
        assert(all.drop_last() =~= all.take(6));
        assert(all.take(6).drop_last() =~= all.take(5));
        assert(all.take(5).drop_last() =~= all.take(4));
        assert(all.take(4).drop_last() =~= all.take(3));
        assert(all.take(3).drop_last() =~= all.take(2));
        assert(all.take(2).drop_last() =~= all.take(1));
        assert(all.take(1).drop_last() =~= all.take(0));
        assert(labels(attempts@) =~= without_repetitions(all.take(0)));
    }
    push_unique(&mut attempts, Some(requested_pixel_format));
    assert(labels(attempts@) == without_repetitions(all.take(1)));
    push_unique(&mut attempts, Some("mjpeg"));
    assert(labels(attempts@) == without_repetitions(all.take(2)));
    push_unique(&mut attempts, Some("nv12"));
    assert(labels(attempts@) == without_repetitions(all.take(3)));
    push_unique(&mut attempts, Some("yuyv422"));
    assert(labels(attempts@) == without_repetitions(all.take(4)));
    push_unique(&mut attempts, Some("uyvy422"));
    assert(labels(attempts@) == without_repetitions(all.take(5)));
    push_unique(&mut attempts, Some("yuv420p"));
    assert(labels(attempts@) == without_repetitions(all.take(6)));
    push_unique(&mut attempts, None);
    proof {
        law_requested_format_comes_first(requested_pixel_format@);
    }
    attempts
}

/// A list without repetitions holds the same entries, each once, and starts with the same one.
proof fn lemma_without_repetitions(list: Seq<Option<Seq<char>>>)
    ensures
        without_repetitions(list).no_duplicates(),
        forall|entry: Option<Seq<char>>|
            #[trigger] without_repetitions(list).contains(entry) == list.contains(entry),
        list.len() > 0 ==> without_repetitions(list).len() > 0 && without_repetitions(list)[0]
            == list[0],
    decreases list.len(),
{
    if list.len() > 0 {
        let shorter = list.drop_last();
        lemma_without_repetitions(shorter);
        let before = without_repetitions(shorter);
        let all = without_repetitions(list);
        assert forall|entry: Option<Seq<char>>| #[trigger] all.contains(entry) == list.contains(
            entry,
        ) by {
            assert(list =~= shorter.push(list.last()));
            if before.contains(entry) {
                let k = choose|k: int| 0 <= k < before.len() && before[k] == entry;
                assert(all[k] == entry);
                let m = choose|m: int| 0 <= m < shorter.len() && shorter[m] == entry;
                assert(list[m] == entry);
            } else if entry == list.last() {
                assert(all[all.len() - 1] == entry);
                assert(list[list.len() - 1] == entry);
            } else if list.contains(entry) {
                let m = choose|m: int| 0 <= m < list.len() && list[m] == entry;
                assert(shorter[m] == entry);
                assert(shorter.contains(entry));
            }
        }
        if shorter.len() == 0 {
            assert(before =~= seq![]);
        }
    }
}

/// The attempts start with the requested format, end with the device's own choice, hold every
/// common format and repeat none.
pub proof fn law_attempts_cover_every_format_once(requested: Seq<char>)
    ensures
        ({
            let attempts = without_repetitions(candidates(requested));
            &&& attempts.no_duplicates()
            &&& attempts[0] == Some(requested)
            &&& attempts.last() == None::<Seq<char>>
            &&& forall|label: Option<Seq<char>>|
                #[trigger] attempts.contains(label) == candidates(requested).contains(label)
        }),
{
    let all = candidates(requested);
    lemma_without_repetitions(all);
    lemma_without_repetitions(all.drop_last());
    let before = without_repetitions(all.drop_last());
    assert(all.last() == None::<Seq<char>>);
    if before.contains(None) {
        assert(all.drop_last().contains(None));
        let k = choose|k: int| 0 <= k < 6 && all.drop_last()[k] == None::<Seq<char>>;
        assert(all[k] is Some);
    }
}

/// A list that starts with `first` and repeats nothing behind it keeps, of what is behind it, all
/// but `first`.
proof fn lemma_only_the_first_is_repeated(first: Option<Seq<char>>, rest: Seq<Option<Seq<char>>>)
    requires
        rest.no_duplicates(),
    ensures
        without_repetitions(seq![first] + rest) == seq![first] + rest.filter(
            |entry: Option<Seq<char>>| entry != first,
        ),
    decreases rest.len(),
{
    let other = |entry: Option<Seq<char>>| entry != first;
    let list = seq![first] + rest;
    reveal(Seq::filter);
    if rest.len() == 0 {
        reveal_with_fuel(without_repetitions, 2);
        assert(list.drop_last() =~= seq![]);
        assert(without_repetitions(list) =~= seq![first]);
        assert(seq![first] + rest.filter(other) =~= seq![first]);
    } else {
        let shorter = rest.drop_last();
        let last = rest.last();
        assert forall|i: int, j: int| 0 <= i < shorter.len() && 0 <= j < shorter.len() && i
            != j implies shorter[i] != shorter[j] by {
            assert(rest[i] != rest[j]);
        }
        lemma_only_the_first_is_repeated(first, shorter);
        assert(list.drop_last() =~= seq![first] + shorter);
        assert(list.last() == last);
        let before = seq![first] + shorter.filter(other);
        if last == first {
            assert(before[0] == last);
            assert(before.contains(last));
        } else {
            if before.contains(last) {
                let k = choose|k: int| 0 <= k < before.len() && before[k] == last;
                assert(shorter.filter(other)[k - 1] == last);
                assert(shorter.filter(other).contains(last));
                shorter.lemma_filter_contains_rev(other, last);
                let m = choose|m: int| 0 <= m < shorter.len() && shorter[m] == last;
                assert(rest[m] == rest[rest.len() - 1]);
            }
            assert(before.push(last) =~= seq![first] + shorter.filter(other).push(last));
        }
    }
}

/// The requested format is tried first; behind it the common formats come in their order, and the
/// device's own choice at the end, whatever was requested. A requested common format is left out
/// there.
pub proof fn law_requested_format_comes_first(requested: Seq<char>)
    ensures
        without_repetitions(candidates(requested)) == seq![Some(requested)] + seq![
            Some("mjpeg"@),
            Some("nv12"@),
            Some("yuyv422"@),
            Some("uyvy422"@),
            Some("yuv420p"@),
            None,
        ].filter(|format: Option<Seq<char>>| format != Some(requested)),
{
    let common = seq![
        Some("mjpeg"@),
        Some("nv12"@),
        Some("yuyv422"@),
        Some("uyvy422"@),
        Some("yuv420p"@),
        None,
    ];
    reveal_strlit("mjpeg");
    reveal_strlit("nv12");
    reveal_strlit("yuyv422");
    reveal_strlit("uyvy422");
    reveal_strlit("yuv420p");
    assert("mjpeg"@.len() == 5 && "nv12"@.len() == 4);
    assert("yuyv422"@[0] == 'y' && "yuyv422"@[2] == 'y');
    assert("uyvy422"@[0] == 'u');
    assert("yuv420p"@[0] == 'y' && "yuv420p"@[2] == 'v');
    assert(common.no_duplicates());
    assert(candidates(requested) =~= seq![Some(requested)] + common);
    lemma_only_the_first_is_repeated(Some(requested), common);
    let other = |entry: Option<Seq<char>>| entry != Some(requested);
    let same_test = |format: Option<Seq<char>>| format != Some(requested);
    assert(other =~= same_test);
}

/// Each attempt stands for the format that it names, or for the device's own choice.
pub proof fn law_attempts_go_by_their_names(attempts: Seq<Option<String>>, i: int)
    requires
        0 <= i < attempts.len(),
    ensures
        labels(attempts).len() == attempts.len(),
        labels(attempts)[i] is Some == attempts[i] is Some,
        attempts[i] is Some ==> labels(attempts)[i]->0 == attempts[i]->0@,
{
}

}
