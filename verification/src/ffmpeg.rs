//! The command lines handed to ffmpeg: decimal numbers, the codec chosen by
//! the output container, and the full argument lists of the pipe and the
//! compose passes.
use vstd::prelude::*;
use crate::text::{push_char, same_text};

verus! {

/// The decimal digit character for `d` (0 to 9).
pub open spec fn digit_char(d: nat) -> char {
    if d == 0 {
        '0'
    } else if d == 1 {
        '1'
    } else if d == 2 {
        '2'
    } else if d == 3 {
        '3'
    } else if d == 4 {
        '4'
    } else if d == 5 {
        '5'
    } else if d == 6 {
        '6'
    } else if d == 7 {
        '7'
    } else if d == 8 {
        '8'
    } else {
        '9'
    }
}

/// The decimal representation of `n`: no sign, no leading zero, `"0"` for 0.
pub open spec fn decimal(n: nat) -> Seq<char>
    decreases n,
{
    if n < 10 {
        seq![digit_char(n)]
    } else {
        decimal(n / 10).push(digit_char(n % 10))
    }
}

/// `s` padded on the left with `'0'` to at least `width` characters
/// (`format!("{:0w$}", ..)`).
pub open spec fn zero_padded(s: Seq<char>, width: nat) -> Seq<char> {
    if s.len() >= width {
        s
    } else {
        Seq::new((width - s.len()) as nat, |i: int| '0') + s
    }
}

fn digit(d: u32) -> (c: char)
    requires
        d < 10,
    ensures
        c == digit_char(d as nat),
{
    if d == 0 {
        '0'
    } else if d == 1 {
        '1'
    } else if d == 2 {
        '2'
    } else if d == 3 {
        '3'
    } else if d == 4 {
        '4'
    } else if d == 5 {
        '5'
    } else if d == 6 {
        '6'
    } else if d == 7 {
        '7'
    } else if d == 8 {
        '8'
    } else {
        '9'
    }
}

pub(crate) proof fn lemma_decimal_len(n: nat)
    ensures
        decimal(n).len() >= 1,
        n < 10 ==> decimal(n).len() == 1,
        10 <= n < 100 ==> decimal(n).len() == 2,
        100 <= n < 1000 ==> decimal(n).len() == 3,
        n >= 10 ==> decimal(n).len() >= 2,
        n >= 100 ==> decimal(n).len() >= 3,
    decreases n,
{
    if n >= 10 {
        lemma_decimal_len(n / 10);
    }
}

fn push_decimal(s: &mut String, n: u32)
    ensures
        final(s)@ == old(s)@ + decimal(n as nat),
    decreases n,
{
    if n >= 10 {
        push_decimal(s, n / 10);
    }
    push_char(s, digit(n % 10));
    proof {
        if n >= 10 {
            assert(decimal(n as nat) == decimal((n / 10) as nat).push(digit_char((n % 10) as nat)));
        }
    }
}

/// `n.to_string()`.
pub fn decimal_string(n: u32) -> (s: String)
    ensures
        s@ == decimal(n as nat),
{
    let mut s = String::new();
    push_decimal(&mut s, n);
    s
}

/// `format!("{:03}", n)`: the decimal representation padded with zeros to
/// three characters.
pub fn three_digits(n: u32) -> (s: String)
    ensures
        s@ == zero_padded(decimal(n as nat), 3),
{
    proof {
        lemma_decimal_len(n as nat);
    }
    let mut s = String::new();
    if n < 10 {
        push_char(&mut s, '0');
        push_char(&mut s, '0');
    } else if n < 100 {
        push_char(&mut s, '0');
    }
    let ghost pad = s@;
    push_decimal(&mut s, n);
    proof {
        let zeros = Seq::new((3 - decimal(n as nat).len()) as nat, |i: int| '0');
        if n < 10 {
            assert(pad =~= zeros);
        } else if n < 100 {
            assert(pad =~= zeros);
        } else {
            assert(pad =~= Seq::<char>::empty());
        }
    }
    s
}

/// The views of a list of strings.
pub open spec fn views(v: Seq<String>) -> Seq<Seq<char>> {
    v.map_values(|s: String| s@)
}

fn push_arg(args: &mut Vec<String>, s: String)
    ensures
        views(final(args)@) == views(old(args)@).push(s@),
{
    let ghost before = args@;
    args.push(s);
    assert(views(args@) =~= views(before).push(s@));
}

fn push_lit(args: &mut Vec<String>, s: &str)
    ensures
        views(final(args)@) == views(old(args)@).push(s@),
{
    push_arg(args, s.to_owned());
}

/// The video codec, pixel format and extra encoder options for an output
/// container (lower-case extension): ProRes 4444 for mov, VP9 for webm and
/// FFV1 for mkv, all three keeping alpha; H.264 for anything else.
pub open spec fn codec_spec(ext: Seq<char>) -> (Seq<char>, Seq<char>, Seq<Seq<char>>) {
    if ext == "mov"@ {
        ("prores_ks"@, "yuva444p10le"@, seq!["-profile:v"@, "4444"@])
    } else if ext == "webm"@ {
        ("libvpx-vp9"@, "yuva420p"@, seq!["-b:v"@, "0"@, "-crf"@, "30"@])
    } else if ext == "mkv"@ {
        ("ffv1"@, "rgba"@, seq![])
    } else {
        ("libx264"@, "yuv420p"@, seq!["-crf"@, "18"@, "-preset"@, "fast"@])
    }
}

/// Whether a pixel format carries an alpha channel.
pub open spec fn keeps_alpha(pix_fmt: Seq<char>) -> bool {
    pix_fmt == "yuva444p10le"@ || pix_fmt == "yuva420p"@ || pix_fmt == "rgba"@
}

/// The HUD stays transparent exactly in the mov, webm and mkv containers:
/// their pixel formats carry alpha, and every other container gets one that
/// does not.
pub proof fn law_alpha_only_in_alpha_containers(ext: Seq<char>)
    ensures
        keeps_alpha(codec_spec(ext).1) <==> (ext == "mov"@ || ext == "webm"@ || ext == "mkv"@),
{
    reveal_strlit("yuv420p");
    reveal_strlit("yuva444p10le");
    reveal_strlit("yuva420p");
    reveal_strlit("rgba");
    assert("yuv420p"@.len() == 7);
    assert("yuva444p10le"@.len() == 12);
    assert("yuva420p"@.len() == 8);
    assert("rgba"@.len() == 4);
}

/// The encoder settings of one output container.
pub struct Codec {
    pub vcodec: String,
    pub pix_fmt: String,
    pub extra: Vec<String>,
}

/// The encoder settings for an output container (lower-case extension).
pub fn codec_for(ext: &str) -> (c: Codec)
    ensures
        (c.vcodec@, c.pix_fmt@, views(c.extra@)) == codec_spec(ext@),
{
    let mut extra: Vec<String> = Vec::new();
    assert(views(extra@) =~= seq![]);
    if same_text(ext, "mov") {
        push_lit(&mut extra, "-profile:v");
        push_lit(&mut extra, "4444");
        Codec { vcodec: "prores_ks".to_owned(), pix_fmt: "yuva444p10le".to_owned(), extra }
    } else if same_text(ext, "webm") {
        push_lit(&mut extra, "-b:v");
        push_lit(&mut extra, "0");
        push_lit(&mut extra, "-crf");
        push_lit(&mut extra, "30");
        Codec { vcodec: "libvpx-vp9".to_owned(), pix_fmt: "yuva420p".to_owned(), extra }
    } else if same_text(ext, "mkv") {
        Codec { vcodec: "ffv1".to_owned(), pix_fmt: "rgba".to_owned(), extra }
    } else {
        push_lit(&mut extra, "-crf");
        push_lit(&mut extra, "18");
        push_lit(&mut extra, "-preset");
        push_lit(&mut extra, "fast");
        Codec { vcodec: "libx264".to_owned(), pix_fmt: "yuv420p".to_owned(), extra }
    }
}

/// Whether the container cannot carry the HUD's transparency, so that its
/// background comes out black (mp4).
pub fn lacks_alpha(ext: &str) -> (b: bool)
    ensures
        b == (ext@ == "mp4"@),
{
    same_text(ext, "mp4")
}

/// `"{width}x{height}"`.
pub open spec fn size_text(width: nat, height: nat) -> Seq<char> {
    decimal(width) + seq!['x'] + decimal(height)
}

/// The arguments of the ffmpeg process that reads raw RGBA frames of the
/// given size and rate from its standard input and encodes them into `out`
/// with the codec of its container `ext`.
pub open spec fn pipe_args_spec(
    ext: Seq<char>,
    width: nat,
    height: nat,
    fps: nat,
    out: Seq<char>,
) -> Seq<Seq<char>> {
    let codec = codec_spec(ext);
    seq![
        "-y"@,
        "-f"@,
        "rawvideo"@,
        "-pixel_format"@,
        "rgba"@,
        "-video_size"@,
        size_text(width, height),
        "-framerate"@,
        decimal(fps),
        "-i"@,
        "pipe:0"@,
        "-c:v"@,
        codec.0,
        "-pix_fmt"@,
        codec.1,
    ] + codec.2 + seq![out]
}

fn size_string(width: u32, height: u32) -> (s: String)
    ensures
        s@ == size_text(width as nat, height as nat),
{
    let mut s = String::new();
    push_decimal(&mut s, width);
    push_char(&mut s, 'x');
    push_decimal(&mut s, height);
    s
}

/// The ffmpeg arguments for piping the rendered frames into a video file.
pub fn pipe_args(ext: &str, width: u32, height: u32, fps: u32, out: &str) -> (args: Vec<String>)
    ensures
        views(args@) == pipe_args_spec(ext@, width as nat, height as nat, fps as nat, out@),
{
    let codec = codec_for(ext);
    let mut args: Vec<String> = Vec::new();
    assert(views(args@) =~= seq![]);
    push_lit(&mut args, "-y");
    push_lit(&mut args, "-f");
    push_lit(&mut args, "rawvideo");
    push_lit(&mut args, "-pixel_format");
    push_lit(&mut args, "rgba");
    push_lit(&mut args, "-video_size");
    push_arg(&mut args, size_string(width, height));
    push_lit(&mut args, "-framerate");
    push_arg(&mut args, decimal_string(fps));
    push_lit(&mut args, "-i");
    push_lit(&mut args, "pipe:0");
    push_lit(&mut args, "-c:v");
    push_arg(&mut args, codec.vcodec);
    push_lit(&mut args, "-pix_fmt");
    push_arg(&mut args, codec.pix_fmt);
    let ghost head = views(args@);
    let extra = codec.extra;
    let mut i: usize = 0;
    while i < extra.len()
        invariant
            i <= extra.len(),
            views(args@) == head + views(extra@).take(i as int),
        decreases extra.len() - i,
    {
        push_arg(&mut args, extra[i].clone());
        assert(views(extra@).take(i + 1) == views(extra@).take(i as int).push(extra@[i as int]@));
        i = i + 1;
    }
    assert(views(extra@).take(extra.len() as int) == views(extra@));
    push_lit(&mut args, out);
    assert(views(args@) =~= pipe_args_spec(ext@, width as nat, height as nat, fps as nat, out@));
    args
}

/// The arguments of the ffmpeg process that lays the raw RGBA frames read
/// from its standard input over the footage of `source` and encodes the
/// result into `out` with H.264, copying the audio.
pub open spec fn compose_args_spec(
    source: Seq<char>,
    width: nat,
    height: nat,
    fps: nat,
    out: Seq<char>,
) -> Seq<Seq<char>> {
    seq![
        "-y"@,
        "-i"@,
        source,
        "-f"@,
        "rawvideo"@,
        "-pixel_format"@,
        "rgba"@,
        "-video_size"@,
        size_text(width, height),
        "-framerate"@,
        decimal(fps),
        "-i"@,
        "pipe:0"@,
        "-filter_complex"@,
        "[0:v][1:v]overlay=0:0:format=auto"@,
        "-c:a"@,
        "copy"@,
        "-c:v"@,
        "libx264"@,
        "-pix_fmt"@,
        "yuv420p"@,
        "-crf"@,
        "18"@,
        "-preset"@,
        "fast"@,
        out,
    ]
}

/// The ffmpeg arguments for burning the rendered frames onto the footage.
pub fn compose_args(source: &str, width: u32, height: u32, fps: u32, out: &str) -> (args: Vec<
    String,
>)
    ensures
        views(args@) == compose_args_spec(source@, width as nat, height as nat, fps as nat, out@),
{
    let mut args: Vec<String> = Vec::new();
    assert(views(args@) =~= seq![]);
    push_lit(&mut args, "-y");
    push_lit(&mut args, "-i");
    push_lit(&mut args, source);
    push_lit(&mut args, "-f");
    push_lit(&mut args, "rawvideo");
    push_lit(&mut args, "-pixel_format");
    push_lit(&mut args, "rgba");
    push_lit(&mut args, "-video_size");
    push_arg(&mut args, size_string(width, height));
    push_lit(&mut args, "-framerate");
    push_arg(&mut args, decimal_string(fps));
    push_lit(&mut args, "-i");
    push_lit(&mut args, "pipe:0");
    push_lit(&mut args, "-filter_complex");
    push_lit(&mut args, "[0:v][1:v]overlay=0:0:format=auto");
    push_lit(&mut args, "-c:a");
    push_lit(&mut args, "copy");
    push_lit(&mut args, "-c:v");
    push_lit(&mut args, "libx264");
    push_lit(&mut args, "-pix_fmt");
    push_lit(&mut args, "yuv420p");
    push_lit(&mut args, "-crf");
    push_lit(&mut args, "18");
    push_lit(&mut args, "-preset");
    push_lit(&mut args, "fast");
    push_lit(&mut args, out);
    assert(views(args@) =~= compose_args_spec(
        source@,
        width as nat,
        height as nat,
        fps as nat,
        out@,
    ));
    args
}

} // verus!
