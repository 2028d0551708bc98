//! Finding the devices to capture from and to play to.
use vstd::prelude::*;

use crate::text::{chars_of, find, lower_chars, rfind, same, space, string_of};

verus! {

/// An audio device by its place in the host's list.
#[derive(Debug, Clone, PartialEq, Eq)]
pub struct AudioDevice {
    pub index: i32,
    pub name: String,
}

/// Which way samples flow through a device.
#[derive(Debug, Clone, Copy, PartialEq, Eq, Structural)]
pub enum Direction {
    Input,
    Output,
}

/// What the audio host says of one device: its name, where it has one, and whether it
/// offers at least one stream configuration for each direction.
#[derive(Debug, Clone)]
pub struct DeviceProbe {
    pub name: Option<String>,
    pub offers_input: bool,
    pub offers_output: bool,
}

impl DeviceProbe {
    /// The device offers a stream configuration for `direction`.
    pub open spec fn offers(&self, direction: Direction) -> bool {
        match direction {
            Direction::Input => self.offers_input,
            Direction::Output => self.offers_output,
        }
    }

    /// The device belongs in the list for `direction`.
    pub open spec fn listed(&self, direction: Direction) -> bool {
        self.name is Some && self.offers(direction)
    }
}

/// The device offers a stream configuration for `direction`.
pub fn device_supports_direction(device: &DeviceProbe, direction: Direction) -> (supported: bool)
    ensures
        supported == device.offers(direction),
        direction == Direction::Input ==> supported == device.offers_input,
        direction == Direction::Output ==> supported == device.offers_output,
{
    match direction {
        Direction::Input => device.offers_input,
        Direction::Output => device.offers_output,
    }
}

/// `device` is the entry for the probe at `position`.
pub open spec fn describes(device: AudioDevice, probes: Seq<DeviceProbe>, position: int) -> bool {
    &&& 0 <= position < probes.len()
    &&& device.index == position as i32
    &&& probes[position].name is Some
    &&& device.name@ == probes[position].name->0@
}

/// The positions in `probes` of the devices for `direction`, in order.
pub open spec fn listed_positions(probes: Seq<DeviceProbe>, direction: Direction) -> Seq<int>
    decreases probes.len(),
{
    if probes.len() == 0 {
        seq![]
    } else {
        let before = listed_positions(probes.drop_last(), direction);
        if probes.last().listed(direction) {
            before.push(probes.len() - 1)
        } else {
            before
        }
    }
}

/// The listed positions are those of the named devices that offer the direction, each once
/// and in the order of the host's list.
pub proof fn lemma_listed_positions(probes: Seq<DeviceProbe>, direction: Direction)
    ensures
        forall|i: int|
            0 <= i < listed_positions(probes, direction).len() ==> 0
                <= #[trigger] listed_positions(probes, direction)[i] < probes.len()
                && probes[listed_positions(probes, direction)[i]].listed(direction),
        forall|i: int, j: int|
            0 <= i < j < listed_positions(probes, direction).len() ==> listed_positions(
                probes,
                direction,
            )[i] < listed_positions(probes, direction)[j],
        forall|p: int|
            0 <= p < probes.len() && (#[trigger] probes[p]).listed(direction)
                ==> listed_positions(probes, direction).contains(p),
    decreases probes.len(),
{
    if probes.len() > 0 {
        let before = probes.drop_last();
        lemma_listed_positions(before, direction);
        let shorter = listed_positions(before, direction);
        let all = listed_positions(probes, direction);
        assert forall|i: int| 0 <= i < all.len() implies 0 <= #[trigger] all[i] < probes.len()
            && probes[all[i]].listed(direction) by {
            if i < shorter.len() {
                assert(all[i] == shorter[i]);
                assert(before[shorter[i]].listed(direction));
            }
        }
        assert forall|p: int|
            0 <= p < probes.len() && (#[trigger] probes[p]).listed(direction) implies all.contains(
            p,
        ) by {
            if p < before.len() {
                assert(before[p].listed(direction));
                assert(shorter.contains(p));
                let k = choose|k: int| 0 <= k < shorter.len() && shorter[k] == p;
                assert(all[k] == p);
            } else {
                assert(all[all.len() - 1] == p);
            }
        }
    }
}

/// `devices` holds one entry for each of `positions`, in order.
pub open spec fn lists(
    devices: Seq<AudioDevice>,
    probes: Seq<DeviceProbe>,
    positions: Seq<int>,
) -> bool {
    &&& devices.len() == positions.len()
    &&& forall|i: int|
        0 <= i < devices.len() ==> describes(#[trigger] devices[i], probes, positions[i])
}

/// The devices of a host that have a name and offer `direction`, each with its place in the
/// host's list; none where the host gives no list.
pub fn enumerate_audio_devices(
    probes: Option<&[DeviceProbe]>,
    direction: Direction,
) -> (devices: Vec<AudioDevice>)
    ensures
        match probes {
            Some(probes) => lists(devices@, probes@, listed_positions(probes@, direction)),
            None => devices@.len() == 0,
        },
{
    let mut devices: Vec<AudioDevice> = Vec::new();
    if let Some(probes) = probes {
        let mut i: usize = 0;
        while i < probes.len()
            invariant
                i <= probes.len(),
                lists(devices@, probes@, listed_positions(probes@.take(i as int), direction)),
            decreases probes.len() - i,
        {
            proof {
                assert(probes@.take(i + 1).drop_last() =~= probes@.take(i as int));
            }
            if let Some(name) = &probes[i].name {
                if device_supports_direction(&probes[i], direction) {
                    devices.push(
                        AudioDevice { index: #[verifier::truncate] (i as i32), name: name.clone() },
                    );
                }
            }
            i += 1;
        }
        assert(probes@.take(i as int) =~= probes@);
    }
    devices
}

/// The devices that samples can be captured from.
pub fn enumerate_audio_inputs(probes: Option<&[DeviceProbe]>) -> (devices: Vec<AudioDevice>)
    ensures
        match probes {
            Some(probes) => lists(
                devices@,
                probes@,
                listed_positions(probes@, Direction::Input),
            ),
            None => devices@.len() == 0,
        },
{
    enumerate_audio_devices(probes, Direction::Input)
}

/// The devices that samples can be played to.
pub fn enumerate_audio_outputs(probes: Option<&[DeviceProbe]>) -> (devices: Vec<AudioDevice>)
    ensures
        match probes {
            Some(probes) => lists(
                devices@,
                probes@,
                listed_positions(probes@, Direction::Output),
            ),
            None => devices@.len() == 0,
        },
{
    enumerate_audio_devices(probes, Direction::Output)
}

/// What the bytes of a text read as, with the replacement character in place of what is no
/// UTF-8.
pub uninterp spec fn lossy_text(bytes: Seq<u8>) -> Seq<char>;

/// `String::from_utf8_lossy`: the text that the bytes spell. Where the bytes are valid UTF-8
/// it is exactly what they encode; what stands for an invalid part is left to the name.
#[verifier::external_body]
fn decode_lossy(bytes: &[u8]) -> (text: String)
    ensures
        text@ == lossy_text(bytes@),
        vstd::utf8::valid_utf8(bytes@) ==> text@ == vstd::utf8::decode_utf8(bytes@),
{
    String::from_utf8_lossy(bytes).into_owned()
}

/// The device name on one line of a device listing: the text between the last two quotation
/// marks before the first `(video)`.
pub open spec fn device_on_line(line: Seq<char>) -> Option<Seq<char>> {
    match crate::text::first_at(line, "(video)"@, 0) {
        Some(marker) => match crate::text::last_before(line, '"', marker) {
            Some(close) => match crate::text::last_before(line, '"', close) {
                Some(open) => Some(line.subrange(open + 1, close)),
                None => None,
            },
            None => None,
        },
        None => None,
    }
}

/// The device names on `lines`, in order.
pub open spec fn devices_on_lines(lines: Seq<Seq<char>>) -> Seq<Seq<char>>
    decreases lines.len(),
{
    if lines.len() == 0 {
        seq![]
    } else {
        let before = devices_on_lines(lines.drop_last());
        match device_on_line(lines.last()) {
            Some(name) => before.push(name),
            None => before,
        }
    }
}

/// The name of the video device on one line of a device listing.
pub fn parse_video_device_line(line: &str) -> (name: Option<String>)
    ensures
        match device_on_line(line@) {
            Some(expected) => name is Some && name->0@ == expected,
            None => name is None,
        },
{
    let chars = chars_of(line);
    device_in(chars.as_slice())
}

/// The name of the video device on a line given by its characters.
fn device_in(line: &[char]) -> (name: Option<String>)
    ensures
        match device_on_line(line@) {
            Some(expected) => name is Some && name->0@ == expected,
            None => name is None,
        },
{
    let marker = chars_of("(video)");
    let marker_index = match find(line, marker.as_slice()) {
        Some(marker_index) => marker_index,
        None => return None,
    };
    let close = match rfind(line, '"', marker_index) {
        Some(close) => close,
        None => return None,
    };
    let open = match rfind(line, '"', close) {
        Some(open) => open,
        None => return None,
    };
    Some(string_of(vstd::slice::slice_subrange(line, open + 1, close)))
}

/// The video devices that a listing of the capture tool names.
pub fn video_devices_in(listing: &str) -> (names: Vec<String>)
    ensures
        crate::text::contents(names@) == devices_on_lines(crate::text::lines(listing@)),
{
    let text = chars_of(listing);
    let newline: [char; 1] = ['\n'];
    let mut names: Vec<String> = Vec::new();
    let mut start: usize = 0;
    let ghost mut done: Seq<Seq<char>> = seq![];
    assert(listing@.skip(0) =~= listing@);
    assert(crate::text::lines(listing@) =~= done + crate::text::lines(listing@.skip(0)));
    while start < text.len()
        invariant
            start <= text.len(),
            text@ == listing@,
            newline@ == seq!['\n'],
            crate::text::lines(listing@) == done + crate::text::lines(listing@.skip(start as int)),
            crate::text::contents(names@) == devices_on_lines(done),
        decreases text.len() - start,
    {
        let rest = vstd::slice::slice_subrange(text.as_slice(), start, text.len());
        assert(rest@ =~= listing@.skip(start as int));
        let (line, next) = match find(rest, newline.as_slice()) {
            Some(n) => {
                let line = vstd::slice::slice_subrange(rest, 0, n);
                assert(line@ =~= rest@.take(n as int));
                assert(rest@.skip(n + 1) =~= listing@.skip(start + n + 1));
                if n > 0 && line[n - 1] == '\r' {
                    let cut = vstd::slice::slice_subrange(line, 0, n - 1);
                    assert(cut@ =~= line@.drop_last());
                    (cut, start + n + 1)
                } else {
                    (line, start + n + 1)
                }
            },
            None => {
                assert(listing@.skip(listing@.len() as int) =~= seq![]);
                (rest, text.len())
            },
        };
        proof {
            let before = done;
            done = done.push(line@);
            assert(done.drop_last() =~= before);
            assert(crate::text::lines(listing@) =~= done + crate::text::lines(
                listing@.skip(next as int),
            ));
        }
        let ghost held = names@;
        if let Some(name) = device_in(line) {
            names.push(name);
            assert(crate::text::contents(names@) =~= crate::text::contents(held).push(name@));
        }
        start = next;
    }
    assert(listing@.skip(start as int) =~= seq![]);
    assert(crate::text::lines(listing@) =~= done);
    names
}

/// The video devices that the capture tool lists, from what it wrote to its error output;
/// none where it could not be run.
pub fn enumerate_video_devices(listing: Option<&[u8]>) -> (names: Vec<String>)
    ensures
        match listing {
            Some(bytes) => crate::text::contents(names@) == devices_on_lines(
                crate::text::lines(lossy_text(bytes@)),
            ),
            None => names@.len() == 0,
        },
        listing is Some && vstd::utf8::valid_utf8(listing->0@) ==> crate::text::contents(names@)
            == devices_on_lines(crate::text::lines(vstd::utf8::decode_utf8(listing->0@))),
{
    match listing {
        Some(bytes) => {
            let text = decode_lossy(bytes);
            video_devices_in(text.as_str())
        },
        None => Vec::new(),
    }
}

/// A device name as it is searched: in lower case, with spaces for hyphens.
pub open spec fn searchable(name: Seq<char>) -> Seq<char> {
    crate::text::lower(name).map_values(
        |c: char|
            if c == '-' {
                ' '
            } else {
                c
            },
    )
}

/// The words that say nothing of a device.
pub open spec fn is_ignored(word: Seq<char>) -> bool {
    word == "pro"@ || word == "the"@ || word == "and"@
}

/// A word that tells devices apart: at least three characters long and not an ignored one.
pub open spec fn is_keyword(word: Seq<char>) -> bool {
    word.len() >= 3 && !is_ignored(word)
}

/// The keywords of a device name.
pub open spec fn keywords(name: Seq<char>) -> Seq<Seq<char>> {
    crate::text::words(searchable(name)).filter(|word: Seq<char>| is_keyword(word))
}

/// How many of `keywords` a device's name holds, in any case.
pub open spec fn match_score(keywords: Seq<Seq<char>>, device: AudioDevice) -> nat {
    keywords.filter(
        |word: Seq<char>| crate::text::occurs_in(crate::text::lower(device.name@), word),
    ).len()
}

/// A word that tells devices apart.
fn tells_apart(word: &str) -> (kept: bool)
    ensures
        kept == is_keyword(word@),
{
    chars_of(word).len() >= 3 && !same(word, "pro") && !same(word, "the") && !same(word, "and")
}

/// The length of the word at the start of `text`.
fn leading_word(text: &[char]) -> (len: usize)
    ensures
        len == crate::text::word_len(text@),
        len <= text@.len(),
{
    let mut len: usize = 0;
    assert(text@.skip(0) =~= text@);
    while len < text.len() && !space(text[len])
        invariant
            len <= text.len(),
            crate::text::word_len(text@) == len + crate::text::word_len(text@.skip(len as int)),
        decreases text.len() - len,
    {
        assert(text@.skip(len as int).drop_first() =~= text@.skip(len + 1));
        len += 1;
    }
    len
}

/// The keywords of a device name.
pub fn keywords_for_device_name(device_name: &str) -> (found: Vec<String>)
    ensures
        crate::text::contents(found@) == keywords(device_name@),
{
    let mut text = lower_chars(device_name);
    let mut i: usize = 0;
    while i < text.len()
        invariant
            i <= text.len(),
            text@.len() == device_name@.len(),
            forall|j: int| 0 <= j < i ==> text@[j] == searchable(device_name@)[j],
            forall|j: int| i <= j < text@.len() ==> text@[j] == crate::text::lower(device_name@)[j],
        decreases text.len() - i,
    {
        if text[i] == '-' {
            text.set(i, ' ');
        }
        i += 1;
    }
    assert(text@ =~= searchable(device_name@));

    let ghost all = searchable(device_name@);
    let ghost keep = |word: Seq<char>| is_keyword(word);
    let ghost mut done: Seq<Seq<char>> = seq![];
    let mut found: Vec<String> = Vec::new();
    let mut start: usize = 0;
    proof {
        assert(all.skip(0) =~= all);
        assert(crate::text::words(all) =~= done + crate::text::words(all.skip(0)));
        reveal(Seq::filter);
        assert(crate::text::contents(found@) =~= done.filter(keep));
    }
    while start < text.len()
        invariant
            start <= text.len(),
            text@ == all,
            keep == (|word: Seq<char>| is_keyword(word)),
            crate::text::words(all) == done + crate::text::words(all.skip(start as int)),
            crate::text::contents(found@) == done.filter(keep),
        decreases text.len() - start,
    {
        if space(text[start]) {
            assert(all.skip(start as int).drop_first() =~= all.skip(start + 1));
            start += 1;
        } else {
            let rest = vstd::slice::slice_subrange(text.as_slice(), start, text.len());
            assert(rest@ =~= all.skip(start as int));
            let len = leading_word(rest);
            assert(len >= 1);
            let chars = vstd::slice::slice_subrange(rest, 0, len);
            assert(chars@ =~= all.skip(start as int).take(len as int));
            let word = string_of(chars);
            let ghost before = done;
            let ghost held = found@;
            proof {
                done = done.push(word@);
                assert(all.skip(start as int).skip(len as int) =~= all.skip(start + len));
                assert(crate::text::words(all) =~= done + crate::text::words(
                    all.skip(start + len),
                ));
                assert(done.drop_last() =~= before);
                reveal(Seq::filter);
            }
            if tells_apart(word.as_str()) {
                found.push(word);
                assert(crate::text::contents(found@) =~= crate::text::contents(held).push(word@));
            }
            start += len;
        }
    }
    assert(all.skip(start as int) =~= seq![]);
    assert(crate::text::words(all) =~= done);
    found
}

/// How many of `keywords` a device's name holds, in any case.
fn score(keywords: &[String], device: &AudioDevice) -> (score: usize)
    ensures
        score == match_score(crate::text::contents(keywords@), *device),
        score <= keywords@.len(),
{
    let hay = lower_chars(device.name.as_str());
    let ghost all = crate::text::contents(keywords@);
    let ghost held = |word: Seq<char>|
        crate::text::occurs_in(crate::text::lower(device.name@), word);
    let mut score: usize = 0;
    let mut i: usize = 0;
    proof {
        reveal(Seq::filter);
        assert(all.take(0).filter(held).len() == 0);
    }
    while i < keywords.len()
        invariant
            i <= keywords.len(),
            score <= i,
            hay@ == crate::text::lower(device.name@),
            all == crate::text::contents(keywords@),
            held == (|word: Seq<char>|
                crate::text::occurs_in(crate::text::lower(device.name@), word)),
            score == all.take(i as int).filter(held).len(),
        decreases keywords.len() - i,
    {
        let needle = chars_of(keywords[i].as_str());
        proof {
            let next = all.take(i + 1);
            assert(next.drop_last() =~= all.take(i as int));
            assert(next.last() == keywords@[i as int]@);
            reveal(Seq::filter);
        }
        if find(hay.as_slice(), needle.as_slice()).is_some() {
            score += 1;
        }
        i += 1;
    }
    assert(all.take(all.len() as int) =~= all);
    score
}

/// Device `i` is the first of those whose names hold the most keywords.
pub open spec fn best_match(
    keywords: Seq<Seq<char>>,
    devices: Seq<AudioDevice>,
    i: int,
) -> bool {
    &&& 0 <= i < devices.len()
    &&& forall|j: int|
        0 <= j < devices.len() ==> match_score(keywords, #[trigger] devices[j]) <= match_score(
            keywords,
            devices[i],
        )
    &&& forall|j: int|
        0 <= j < i ==> match_score(keywords, #[trigger] devices[j]) < match_score(
            keywords,
            devices[i],
        )
}

/// `index` is what detection finds for a video device among `inputs`: the first input whose
/// name holds the most of the video device's keywords, if it holds at least two.
pub open spec fn detects(
    video_device_name: Seq<char>,
    inputs: Seq<AudioDevice>,
    index: Option<i32>,
) -> bool {
    let words = keywords(video_device_name);
    match index {
        Some(index) => exists|i: int|
            #![trigger inputs[i]]
            best_match(words, inputs, i) && match_score(words, inputs[i]) >= 2 && index
                == inputs[i].index,
        None => forall|i: int|
            0 <= i < inputs.len() ==> match_score(words, #[trigger] inputs[i]) < 2,
    }
}

/// Detection comes to one result only.
pub proof fn law_detection_has_one_result(
    video_device_name: Seq<char>,
    inputs: Seq<AudioDevice>,
    a: Option<i32>,
    b: Option<i32>,
)
    requires
        detects(video_device_name, inputs, a),
        detects(video_device_name, inputs, b),
    ensures
        a == b,
{
}

/// The audio input that belongs to a video device.
pub fn find_audio_input_for_video(video_device_name: &str, inputs: &[AudioDevice]) -> (index:
    Option<i32>)
    ensures
        detects(video_device_name@, inputs@, index),
{
    let found = keywords_for_device_name(video_device_name);
    let ghost words = keywords(video_device_name@);
    let mut best: Option<usize> = None;
    let mut best_score: usize = 0;
    let mut i: usize = 0;
    while i < inputs.len()
        invariant
            i <= inputs.len(),
            crate::text::contents(found@) == words,
            forall|j: int|
                0 <= j < i ==> match_score(words, #[trigger] inputs@[j]) <= best_score,
            best is None ==> best_score == 0,
            best is Some ==> best->0 < i && best_score > 0 && best_score == match_score(
                words,
                inputs@[best->0 as int],
            ) && forall|j: int|
                0 <= j < best->0 ==> match_score(words, #[trigger] inputs@[j]) < best_score,
        decreases inputs.len() - i,
    {
        let current = score(found.as_slice(), &inputs[i]);
        if current > best_score {
            best_score = current;
            best = Some(i);
        }
        i += 1;
    }
    match best {
        Some(i) => {
            assert(best_match(words, inputs@, i as int));
            if best_score >= 2 {
                Some(inputs[i].index)
            } else {
                None
            }
        },
        None => None,
    }
}

/// `path` without the slashes and backslashes that it ends in.
pub open spec fn without_trailing_slashes(path: Seq<char>) -> Seq<char>
    decreases path.len(),
{
    if path.len() > 0 && (path.last() == '\\' || path.last() == '/') {
        without_trailing_slashes(path.drop_last())
    } else {
        path
    }
}

/// The capture tool to run: the one that `ffmpeg` names, where it names one; else the one in
/// the `bin` directory of `ffmpeg_dir`, where that is given; else whichever is found.
pub fn ffmpeg_path(ffmpeg: Option<String>, ffmpeg_dir: Option<String>) -> (path: String)
    ensures
        path@ == if ffmpeg is Some && ffmpeg->0@.len() > 0 {
            ffmpeg->0@
        } else if ffmpeg_dir is Some {
            without_trailing_slashes(ffmpeg_dir->0@) + "\\bin\\ffmpeg.exe"@
        } else {
            "ffmpeg"@
        },
{
    if let Some(path) = ffmpeg {
        if !path.as_str().is_empty() {
            return path;
        }
    }
    match ffmpeg_dir {
        Some(dir) => {
            let chars = chars_of(dir.as_str());
            let mut end: usize = chars.len();
            assert(dir@.take(end as int) =~= dir@);
            while end > 0 && (chars[end - 1] == '\\' || chars[end - 1] == '/')
                invariant
                    end <= chars.len(),
                    chars@ == dir@,
                    without_trailing_slashes(dir@) == without_trailing_slashes(
                        dir@.take(end as int),
                    ),
                decreases end,
            {
                assert(dir@.take(end as int).drop_last() =~= dir@.take(end - 1));
                end -= 1;
            }
            let kept = vstd::slice::slice_subrange(chars.as_slice(), 0, end);
            assert(kept@ =~= dir@.take(end as int));
            let mut path = string_of(kept);
            path.append("\\bin\\ffmpeg.exe");
            path
        },
        None => "ffmpeg".to_owned(),
    }
}

/// The list for a direction holds the named devices that offer it and no others, each under its
/// place in the host's list and in the order of that list.
pub proof fn law_list_holds_the_devices_that_offer(
    probes: Seq<DeviceProbe>,
    direction: Direction,
    devices: Seq<AudioDevice>,
)
    requires
        probes.len() <= i32::MAX + 1,
        lists(devices, probes, listed_positions(probes, direction)),
    ensures
        forall|i: int|
            0 <= i < devices.len() ==> {
                let index = (#[trigger] devices[i]).index as int;
                &&& 0 <= index < probes.len()
                &&& probes[index].name is Some
                &&& devices[i].name@ == probes[index].name->0@
                &&& direction == Direction::Input ==> probes[index].offers_input
                &&& direction == Direction::Output ==> probes[index].offers_output
            },
        forall|i: int, j: int|
            0 <= i < j < devices.len() ==> (#[trigger] devices[i]).index < (
            #[trigger] devices[j]).index,
        forall|p: int|
            0 <= p < probes.len() && (#[trigger] probes[p]).name is Some && (direction
                == Direction::Input ==> probes[p].offers_input) && (direction == Direction::Output
                ==> probes[p].offers_output) ==> exists|i: int|
                0 <= i < devices.len() && (#[trigger] devices[i]).index == p,
{
    let positions = listed_positions(probes, direction);
    lemma_listed_positions(probes, direction);
    assert forall|i: int| 0 <= i < devices.len() implies (#[trigger] devices[i]).index
        == positions[i] && 0 <= positions[i] < probes.len() && probes[positions[i]].listed(
        direction,
    ) && devices[i].name@ == probes[positions[i]].name->0@ by {
        assert(describes(devices[i], probes, positions[i]));
    }
    assert forall|p: int|
        0 <= p < probes.len() && (#[trigger] probes[p]).name is Some && (direction
            == Direction::Input ==> probes[p].offers_input) && (direction == Direction::Output
            ==> probes[p].offers_output) implies exists|i: int|
        0 <= i < devices.len() && (#[trigger] devices[i]).index == p by {
        assert(probes[p].listed(direction));
        let i = choose|i: int| 0 <= i < positions.len() && positions[i] == p;
        assert(devices[i].index == p);
    }
}

/// The text between the last two quotation marks before the first `(video)` is the name of the
/// device, whatever stands before, between and behind.
pub proof fn law_quoted_name_is_the_device(
    before: Seq<char>,
    name: Seq<char>,
    between: Seq<char>,
    after: Seq<char>,
)
    requires
        forall|i: int| 0 <= i < name.len() ==> name[i] != '"',
        forall|i: int| 0 <= i < between.len() ==> between[i] != '"',
        ({
            let start = before + seq!['"'] + name + seq!['"'] + between;
            let line = start + "(video)"@ + after;
            forall|j: int|
                0 <= j < start.len() ==> #[trigger] line.subrange(j, j + "(video)"@.len())
                    != "(video)"@
        }),
    ensures
        device_on_line(
            before + seq!['"'] + name + seq!['"'] + between + "(video)"@ + after,
        ) == Some(name),
{
    let marker = "(video)"@;
    let start = before + seq!['"'] + name + seq!['"'] + between;
    let line = start + marker + after;
    crate::text::law_first_position(start, marker, after);
    let at = crate::text::first_at(line, marker, 0)->0;
    if at < start.len() {
        assert(line.subrange(at, at + marker.len()) == marker);
    }
    assert(at == start.len());
    crate::text::law_last_position(line, '"', at);
    let close = before.len() + 1 + name.len();
    assert(line[close as int] == '"');
    assert forall|j: int| close < j < at implies line[j] != '"' by {
        assert(line[j] == between[j - close - 1]);
    }
    assert(crate::text::last_before(line, '"', at) == Some(close as int));
    crate::text::law_last_position(line, '"', close as int);
    let open = before.len() as int;
    assert(line[open] == '"');
    assert forall|j: int| open < j < close implies line[j] != '"' by {
        assert(line[j] == name[j - open - 1]);
    }
    assert(crate::text::last_before(line, '"', close as int) == Some(open));
    assert(line.subrange(open + 1, close as int) =~= name);
}

/// A line without `(video)`, or with fewer than two quotation marks before the first one, names
/// no device; every other line does.
pub proof fn law_lines_without_a_quoted_name_name_nothing(line: Seq<char>)
    ensures
        device_on_line(line) is Some == exists|open: int, close: int, at: int|
            {
                &&& 0 <= open < close < at
                &&& at + "(video)"@.len() <= line.len()
                &&& #[trigger] line[open] == '"'
                &&& #[trigger] line[close] == '"'
                &&& #[trigger] line.subrange(at, at + "(video)"@.len()) == "(video)"@
                &&& forall|j: int|
                    0 <= j < at ==> #[trigger] line.subrange(j, j + "(video)"@.len())
                        != "(video)"@
            },
{
    let marker = "(video)"@;
    crate::text::lemma_first_at(line, marker, 0);
    match crate::text::first_at(line, marker, 0) {
        Some(at) => {
            crate::text::law_last_position(line, '"', at);
            assert forall|j: int| 0 <= j < at implies #[trigger] line.subrange(
                j,
                j + marker.len(),
            ) != marker by {
                assert(!crate::text::occurs_at(line, marker, j));
            }
            assert(line.subrange(at, at + marker.len()) == marker);
            if let Some(close) = crate::text::last_before(line, '"', at) {
                crate::text::law_last_position(line, '"', close);
            }
            assert forall|open: int, close: int, other: int|
                0 <= open < close < other && other + marker.len() <= line.len()
                    && #[trigger] line[open] == '"' && #[trigger] line[close] == '"'
                    && #[trigger] line.subrange(other, other + marker.len()) == marker && (forall|
                    j: int,
                |
                    0 <= j < other ==> #[trigger] line.subrange(j, j + marker.len()) != marker)
                implies device_on_line(line) is Some by {
                if other < at {
                    assert(!crate::text::occurs_at(line, marker, other));
                }
                if at < other {
                    assert(line.subrange(at, at + marker.len()) == marker);
                }
            }
        },
        None => {
            assert forall|at: int| 0 <= at && at + marker.len() <= line.len() implies
                #[trigger] line.subrange(at, at + marker.len()) != marker by {
                assert(!crate::text::occurs_at(line, marker, at));
            }
        },
    }
}

/// A listing names the devices of its lines, each line by itself and in order.
pub proof fn law_lines_name_devices_in_order(a: Seq<Seq<char>>, b: Seq<Seq<char>>, line: Seq<char>)
    ensures
        devices_on_lines(a + b) == devices_on_lines(a) + devices_on_lines(b),
        devices_on_lines(seq![]) == Seq::<Seq<char>>::empty(),
        device_on_line(line) is Some ==> devices_on_lines(seq![line]) == seq![
            device_on_line(line)->0,
        ],
        device_on_line(line) is None ==> devices_on_lines(seq![line]) == Seq::<
            Seq<char>,
        >::empty(),
    decreases b.len(),
{
    assert(seq![line].drop_last() =~= seq![]);
    assert(devices_on_lines(seq![line].drop_last()) =~= seq![]);
    if b.len() == 0 {
        assert(a + b =~= a);
        assert(devices_on_lines(a) + devices_on_lines(b) =~= devices_on_lines(a));
    } else {
        law_lines_name_devices_in_order(a, b.drop_last(), line);
        assert((a + b).drop_last() =~= a + b.drop_last());
        assert(devices_on_lines(a + b) =~= devices_on_lines(a) + devices_on_lines(b));
    }
}

/// Lower case keeps white space and hyphens, and makes none.
proof fn lemma_searchable_char(name: Seq<char>, i: int)
    requires
        0 <= i < name.len(),
    ensures
        crate::text::is_space(searchable(name)[i]) == (crate::text::is_space(name[i]) || name[i]
            == '-'),
        !(crate::text::is_space(name[i]) || name[i] == '-') ==> searchable(name)[i]
            == crate::text::lower(name)[i],
{
}

/// White space and hyphens part the keywords of a name: what stands before and behind gives its
/// keywords by itself.
pub proof fn law_keywords_of_parts(a: Seq<char>, c: char, b: Seq<char>)
    requires
        crate::text::is_space(c) || c == '-',
    ensures
        keywords(a + seq![c] + b) == keywords(a) + keywords(b),
{
    let whole = a + seq![c] + b;
    let parting = searchable(whole)[a.len() as int];
    lemma_searchable_char(whole, a.len() as int);
    assert(searchable(whole) =~= searchable(a) + seq![parting] + searchable(b));
    crate::text::law_white_space_parts_words(searchable(a), parting, searchable(b));
    Seq::filter_distributes_over_add(
        crate::text::words(searchable(a)),
        crate::text::words(searchable(b)),
        |word: Seq<char>| is_keyword(word),
    );
}

/// A single word is a keyword, in lower case, if it has three characters or more and is none of
/// the ignored words; else it gives none.
pub proof fn law_keyword_of_a_word(word: Seq<char>)
    requires
        word.len() > 0,
        forall|i: int|
            0 <= i < word.len() ==> !crate::text::is_space(#[trigger] word[i]) && word[i] != '-',
    ensures
        ({
            let lowered = crate::text::lower(word);
            keywords(word) == if word.len() >= 3 && lowered != "pro"@ && lowered != "the"@
                && lowered != "and"@ {
                seq![lowered]
            } else {
                seq![]
            }
        }),
        keywords(seq![]) == Seq::<Seq<char>>::empty(),
{
    let lowered = crate::text::lower(word);
    assert forall|i: int| 0 <= i < word.len() implies !crate::text::is_space(
        #[trigger] searchable(word)[i],
    ) && searchable(word)[i] == lowered[i] by {
        lemma_searchable_char(word, i);
        assert(word[i] != '-');
    }
    assert(searchable(word) =~= lowered);
    crate::text::law_a_word_is_itself(searchable(word));
    reveal(Seq::filter);
    let keep = |word: Seq<char>| is_keyword(word);
    let one = crate::text::words(searchable(word));
    assert(one =~= seq![lowered]);
    assert(one.drop_last() =~= seq![]);
    assert(one.drop_last().filter(keep) =~= seq![]);
    assert(one.filter(keep) =~= if is_keyword(lowered) {
        seq![lowered]
    } else {
        seq![]
    });
    assert(searchable(seq![]) =~= seq![]);
    assert(crate::text::words(seq![]) =~= seq![]);
    assert(keywords(seq![]) =~= seq![]);
}

/// `word` stands somewhere in the lower-case name of `device`.
pub open spec fn stands_in(word: Seq<char>, device: AudioDevice) -> bool {
    exists|at: int|
        0 <= at && at + word.len() <= device.name@.len() && #[trigger] crate::text::lower(
            device.name@,
        ).subrange(at, at + word.len()) == word
}

/// Each keyword counts for a device exactly when it stands anywhere in the device's name in lower
/// case: at the start, behind a bracket or within a word.
pub proof fn law_keywords_count_wherever_they_stand(
    words: Seq<Seq<char>>,
    word: Seq<char>,
    device: AudioDevice,
)
    ensures
        match_score(seq![], device) == 0,
        (exists|at: int|
            0 <= at && at + word.len() <= device.name@.len() && #[trigger] crate::text::lower(
                device.name@,
            ).subrange(at, at + word.len()) == word) ==> match_score(words.push(word), device)
            == match_score(words, device) + 1,
        (forall|at: int|
            0 <= at && at + word.len() <= device.name@.len() ==> #[trigger] crate::text::lower(
                device.name@,
            ).subrange(at, at + word.len()) != word) ==> match_score(words.push(word), device)
            == match_score(words, device),
{
    reveal(Seq::filter);
    let hay = crate::text::lower(device.name@);
    let longer = words.push(word);
    assert(longer.drop_last() =~= words);
    if exists|at: int|
        0 <= at && at + word.len() <= device.name@.len() && #[trigger] hay.subrange(
            at,
            at + word.len(),
        ) == word {
        let at = choose|at: int|
            0 <= at && at + word.len() <= device.name@.len() && #[trigger] hay.subrange(
                at,
                at + word.len(),
            ) == word;
        assert(crate::text::occurs_at(hay, word, at));
    } else {
        assert forall|at: int| !crate::text::occurs_at(hay, word, at) by {
            if 0 <= at && at + word.len() <= hay.len() {
                assert(hay.subrange(at, at + word.len()) != word);
            }
        }
    }
}

/// A device scores at least as often as different keywords stand in its name.
proof fn lemma_score_of_two(words: Seq<Seq<char>>, device: AudioDevice)
    ensures
        (match_score(words, device) >= 1) == exists|p: int|
            0 <= p < words.len() && #[trigger] stands_in(words[p], device),
        (match_score(words, device) >= 2) == exists|p: int, q: int|
            0 <= p < q < words.len() && #[trigger] stands_in(words[p], device)
                && #[trigger] stands_in(words[q], device),
    decreases words.len(),
{
    if words.len() == 0 {
        law_keywords_count_wherever_they_stand(words, seq![], device);
        assert(words =~= seq![]);
    } else {
        let shorter = words.drop_last();
        let last = words.last();
        let n = words.len() - 1;
        lemma_score_of_two(shorter, device);
        law_keywords_count_wherever_they_stand(shorter, last, device);
        assert(shorter.push(last) =~= words);
        assert(stands_in(words[n], device) == stands_in(last, device));
        assert(forall|p: int| 0 <= p < n ==> words[p] == shorter[p]);
        if exists|p: int| 0 <= p < shorter.len() && #[trigger] stands_in(shorter[p], device) {
            let p = choose|p: int| 0 <= p < shorter.len() && #[trigger] stands_in(shorter[p], device);
            assert(stands_in(words[p], device));
        }
        if exists|p: int, q: int|
            0 <= p < q < shorter.len() && #[trigger] stands_in(shorter[p], device)
                && #[trigger] stands_in(shorter[q], device) {
            let (p, q) = choose|p: int, q: int|
                0 <= p < q < shorter.len() && #[trigger] stands_in(shorter[p], device)
                    && #[trigger] stands_in(shorter[q], device);
            assert(stands_in(words[p], device) && stands_in(words[q], device));
        }
        if exists|p: int| 0 <= p < words.len() && #[trigger] stands_in(words[p], device) {
            let p = choose|p: int| 0 <= p < words.len() && #[trigger] stands_in(words[p], device);
            if p < n {
                assert(stands_in(shorter[p], device));
            }
        }
        if exists|p: int, q: int|
            0 <= p < q < words.len() && #[trigger] stands_in(words[p], device)
                && #[trigger] stands_in(words[q], device) {
            let (p, q) = choose|p: int, q: int|
                0 <= p < q < words.len() && #[trigger] stands_in(words[p], device)
                    && #[trigger] stands_in(words[q], device);
            assert(stands_in(shorter[p], device));
            if q < n {
                assert(stands_in(shorter[q], device));
            }
        }
    }
}

/// Detection finds an input exactly when two keywords of the video device each stand somewhere in
/// the name of one input.
pub proof fn law_two_keywords_in_a_name_are_detected(
    video_device_name: Seq<char>,
    inputs: Seq<AudioDevice>,
    index: Option<i32>,
)
    requires
        detects(video_device_name, inputs, index),
    ensures
        ({
            let words = keywords(video_device_name);
            index is Some == exists|i: int, p: int, q: int|
                {
                    &&& 0 <= i < inputs.len()
                    &&& 0 <= p < q < words.len()
                    &&& #[trigger] stands_in(words[p], inputs[i])
                    &&& #[trigger] stands_in(words[q], inputs[i])
                }
        }),
{
    let words = keywords(video_device_name);
    assert forall|i: int| 0 <= i < inputs.len() implies (match_score(words, #[trigger] inputs[i])
        >= 2) == (exists|p: int, q: int|
        0 <= p < q < words.len() && #[trigger] stands_in(words[p], inputs[i])
            && #[trigger] stands_in(words[q], inputs[i])) by {
        lemma_score_of_two(words, inputs[i]);
    }
    if index is Some {
        let i = choose|i: int|
            #![trigger inputs[i]]
            best_match(words, inputs, i) && match_score(words, inputs[i]) >= 2 && index->0
                == inputs[i].index;
        let (p, q) = choose|p: int, q: int|
            0 <= p < q < words.len() && #[trigger] stands_in(words[p], inputs[i])
                && #[trigger] stands_in(words[q], inputs[i]);
        assert(stands_in(words[p], inputs[i]) && stands_in(words[q], inputs[i]));
    }
}

/// The detected input is one of the inputs; no input holds more keywords, and none before it
/// holds as many.
pub proof fn law_first_of_the_best_is_detected(
    video_device_name: Seq<char>,
    inputs: Seq<AudioDevice>,
    index: i32,
)
    requires
        detects(video_device_name, inputs, Some(index)),
    ensures
        ({
            let words = keywords(video_device_name);
            exists|i: int|
                {
                    &&& 0 <= i < inputs.len()
                    &&& (#[trigger] inputs[i]).index == index
                    &&& forall|j: int|
                        0 <= j < inputs.len() ==> match_score(words, #[trigger] inputs[j])
                            <= match_score(words, inputs[i])
                    &&& forall|j: int|
                        0 <= j < i ==> match_score(words, #[trigger] inputs[j]) < match_score(
                            words,
                            inputs[i],
                        )
                }
        }),
{
}

/// Slashes and backslashes at the end of a path are taken off, however many; any other path is
/// kept.
pub proof fn law_slashes_at_the_end_are_taken_off(path: Seq<char>)
    ensures
        without_trailing_slashes(path.push('/')) == without_trailing_slashes(path),
        without_trailing_slashes(path.push('\\')) == without_trailing_slashes(path),
        path.len() == 0 || path.last() != '/' && path.last() != '\\' ==> without_trailing_slashes(
            path,
        ) == path,
{
    assert(path.push('/').drop_last() =~= path);
    assert(path.push('\\').drop_last() =~= path);
}

}
