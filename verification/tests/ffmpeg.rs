use dashcam_hud::ffmpeg::{codec_for, compose_args, decimal_string, lacks_alpha, pipe_args, three_digits};

fn strs(v: &[&str]) -> Vec<String> {
    v.iter().map(|s| s.to_string()).collect()
}

#[test]
fn decimal_numbers() {
    assert_eq!(decimal_string(0), "0");
    assert_eq!(decimal_string(7), "7");
    assert_eq!(decimal_string(30), "30");
    assert_eq!(decimal_string(3840), "3840");
    assert_eq!(decimal_string(u32::MAX), "4294967295");
}

#[test]
fn three_digit_bearings() {
    assert_eq!(three_digits(0), "000");
    assert_eq!(three_digits(5), "005");
    assert_eq!(three_digits(40), "040");
    assert_eq!(three_digits(350), "350");
    assert_eq!(three_digits(1234), "1234");
}

#[test]
fn codecs_by_container() {
    let mov = codec_for("mov");
    assert_eq!((mov.vcodec.as_str(), mov.pix_fmt.as_str()), ("prores_ks", "yuva444p10le"));
    assert_eq!(mov.extra, strs(&["-profile:v", "4444"]));
    let webm = codec_for("webm");
    assert_eq!((webm.vcodec.as_str(), webm.pix_fmt.as_str()), ("libvpx-vp9", "yuva420p"));
    assert_eq!(webm.extra, strs(&["-b:v", "0", "-crf", "30"]));
    let mkv = codec_for("mkv");
    assert_eq!((mkv.vcodec.as_str(), mkv.pix_fmt.as_str()), ("ffv1", "rgba"));
    assert!(mkv.extra.is_empty());
    for other in ["mp4", "avi", ""] {
        let c = codec_for(other);
        assert_eq!((c.vcodec.as_str(), c.pix_fmt.as_str()), ("libx264", "yuv420p"));
        assert_eq!(c.extra, strs(&["-crf", "18", "-preset", "fast"]));
    }
}

#[test]
fn only_mp4_lacks_alpha() {
    assert!(lacks_alpha("mp4"));
    assert!(!lacks_alpha("mov"));
    assert!(!lacks_alpha("webm"));
    assert!(!lacks_alpha("mkv"));
}

#[test]
fn pipe_arguments_for_a_mov_overlay() {
    let args = pipe_args("mov", 3840, 2160, 30, "hud.mov");
    assert_eq!(
        args,
        strs(&[
            "-y", "-f", "rawvideo", "-pixel_format", "rgba", "-video_size", "3840x2160",
            "-framerate", "30", "-i", "pipe:0", "-c:v", "prores_ks", "-pix_fmt", "yuva444p10le",
            "-profile:v", "4444", "hud.mov",
        ])
    );
}

#[test]
fn pipe_arguments_for_mkv_have_no_extras() {
    let args = pipe_args("mkv", 1920, 1080, 60, "out.mkv");
    assert_eq!(args.len(), 16);
    assert_eq!(args[6], "1920x1080");
    assert_eq!(args[8], "60");
    assert_eq!(args[12], "ffv1");
    assert_eq!(args[15], "out.mkv");
}

#[test]
fn compose_arguments() {
    let args = compose_args("clip.MP4", 3840, 2160, 30, "final.mp4");
    assert_eq!(
        args,
        strs(&[
            "-y", "-i", "clip.MP4", "-f", "rawvideo", "-pixel_format", "rgba", "-video_size",
            "3840x2160", "-framerate", "30", "-i", "pipe:0", "-filter_complex",
            "[0:v][1:v]overlay=0:0:format=auto", "-c:a", "copy", "-c:v", "libx264", "-pix_fmt",
            "yuv420p", "-crf", "18", "-preset", "fast", "final.mp4",
        ])
    );
}
