//! Formats, text and bit arithmetic.

use lalah::bits::{
    align_up_64, is_power_of_two, masked, next_power_of_two, prev_power_of_two,
};
use lalah::bytes::{bytes_match, le16, le32, le64};
use lalah::format::{AudioFormat, SampleFormat, VideoFormat};
use lalah::fourcc::{fourcc_str, fourcc_string, mpv_command, mpv_mp_format};
use lalah::text::{contains, parse_number, push_decimal, push_hex8, same, wide};
use lalah::videoinfo::{parse_video_format, FORMAT_VIDEO_INFO};
use lalah::wave::{
    carried_format, make_wfx, parse_audio_format, parse_wfx, Candidate, SubFormat,
    FORMAT_WAVE_FORMAT_EX, SUBTYPE_IEEE_FLOAT_BYTES, SUBTYPE_PCM_BYTES,
};

fn code(s: &[u8; 4]) -> u32 {
    u32::from_le_bytes(*s)
}

#[test]
fn sample_formats_have_numbers_and_sizes() {
    assert_eq!(SampleFormat::from_u32(0), Some(SampleFormat::S16Le));
    assert_eq!(SampleFormat::from_u32(1), Some(SampleFormat::S32Le));
    assert_eq!(SampleFormat::from_u32(2), Some(SampleFormat::F32Le));
    assert_eq!(SampleFormat::from_u32(3), None);
    assert_eq!(SampleFormat::S16Le.bytes_per_sample(), 2);
    assert_eq!(SampleFormat::S32Le.bytes_per_sample(), 4);
    assert_eq!(SampleFormat::F32Le.bytes_per_sample(), 4);
    for f in [SampleFormat::S16Le, SampleFormat::S32Le, SampleFormat::F32Le] {
        assert_eq!(SampleFormat::from_u32(f.to_u32()), Some(f));
    }
}

#[test]
fn powers_of_two() {
    assert_eq!(prev_power_of_two(0), 0);
    assert_eq!(prev_power_of_two(1), 1);
    assert_eq!(prev_power_of_two(2 * 1024 * 1024 - 192), 1024 * 1024);
    assert_eq!(prev_power_of_two(usize::MAX), 1 << (usize::BITS - 1));
    assert_eq!(next_power_of_two(0), 1);
    assert_eq!(next_power_of_two(4_147_200), 4_194_304);
    assert_eq!(next_power_of_two(4_194_304), 4_194_304);
    assert!(is_power_of_two(1024));
    assert!(!is_power_of_two(0));
    assert!(!is_power_of_two(1000));
    assert_eq!(align_up_64(0), 0);
    assert_eq!(align_up_64(1), 64);
    assert_eq!(align_up_64(64), 64);
    assert_eq!(align_up_64(65), 128);
    assert_eq!(masked(1030, 1024), 6);
}

#[test]
fn little_endian_numbers() {
    let b = [1u8, 2, 3, 4, 5, 6, 7, 8, 9];
    assert_eq!(le16(&b, 1), 0x0302);
    assert_eq!(le32(&b, 1), 0x0504_0302);
    assert_eq!(le64(&b, 1), 0x0908_0706_0504_0302);
    assert!(bytes_match(&b, 2, &[3, 4]));
    assert!(!bytes_match(&b, 2, &[3, 5]));
}

fn candidate(bits: u16, is_float: bool, extensible: bool) -> Candidate {
    Candidate { rate: 48_000, channels: 2, bits, is_float, extensible }
}

#[test]
fn wave_formats_are_built_and_read_back() {
    let w = make_wfx(candidate(16, false, false));
    assert_eq!((w.tag, w.cb_size, w.block_align), (1, 0, 4));
    assert_eq!(w.avg_bytes_per_sec, 192_000);
    assert_eq!(w.channel_mask, 0x3);
    assert_eq!(w.sub_format, SubFormat::Pcm);
    assert_eq!(
        parse_audio_format(&w),
        Some(AudioFormat {
            sample_rate: 48_000,
            channels: 2,
            format: SampleFormat::S16Le,
            frame_bytes: 4,
        })
    );
    let w = make_wfx(candidate(32, true, true));
    assert_eq!((w.tag, w.cb_size, w.valid_bits), (0xFFFE, 22, 32));
    assert_eq!(parse_audio_format(&w).map(|f| f.format), Some(SampleFormat::F32Le));
    let w = make_wfx(candidate(32, true, false));
    assert_eq!(w.tag, 3);
    assert_eq!(parse_audio_format(&w).map(|f| f.format), Some(SampleFormat::F32Le));
    let w = make_wfx(candidate(32, false, true));
    assert_eq!(parse_audio_format(&w).map(|f| f.format), Some(SampleFormat::S32Le));
    let mono = make_wfx(Candidate { channels: 1, ..candidate(16, false, false) });
    assert_eq!((mono.channel_mask, mono.block_align), (0x4, 2));
}

#[test]
fn only_some_widths_are_carried() {
    assert_eq!(carried_format(1, SubFormat::Pcm, 24), None);
    assert_eq!(carried_format(0xFFFE, SubFormat::Pcm, 24), None);
    assert_eq!(carried_format(3, SubFormat::Pcm, 64), None);
    assert_eq!(carried_format(3, SubFormat::Pcm, 16), None);
    assert_eq!(carried_format(2, SubFormat::Pcm, 16), None);
    assert_eq!(carried_format(1, SubFormat::IeeeFloat, 32), Some(SampleFormat::S32Le));
    assert_eq!(carried_format(1, SubFormat::Other, 16), Some(SampleFormat::S16Le));
    assert_eq!(carried_format(0xFFFE, SubFormat::Other, 16), None);
    assert_eq!(carried_format(0xFFFE, SubFormat::Other, 32), None);
}

fn wave_block(tag: u16, bits: u16) -> Vec<u8> {
    let mut b = Vec::new();
    b.extend_from_slice(&tag.to_le_bytes());
    b.extend_from_slice(&2u16.to_le_bytes());
    b.extend_from_slice(&44_100u32.to_le_bytes());
    b.extend_from_slice(&0u32.to_le_bytes());
    b.extend_from_slice(&(bits / 4).to_le_bytes());
    b.extend_from_slice(&bits.to_le_bytes());
    b.extend_from_slice(&22u16.to_le_bytes());
    b
}

#[test]
fn wave_blocks_are_parsed() {
    let plain = wave_block(1, 16);
    assert_eq!(
        parse_wfx(FORMAT_WAVE_FORMAT_EX, Some(&plain)),
        Some(AudioFormat {
            sample_rate: 44_100,
            channels: 2,
            format: SampleFormat::S16Le,
            frame_bytes: 4,
        })
    );
    assert_eq!(parse_wfx(FORMAT_WAVE_FORMAT_EX, None), None);
    assert_eq!(parse_wfx(FORMAT_VIDEO_INFO, Some(&plain)), None);
    assert_eq!(parse_wfx(FORMAT_WAVE_FORMAT_EX, Some(&plain[..17])), None);
    assert_eq!(parse_wfx(FORMAT_WAVE_FORMAT_EX, Some(&wave_block(1, 24))), None);
    assert_eq!(parse_wfx(FORMAT_WAVE_FORMAT_EX, Some(&wave_block(7, 16))), None);

    let mut ext = wave_block(0xFFFE, 32);
    assert_eq!(parse_wfx(FORMAT_WAVE_FORMAT_EX, Some(&ext)), None, "no room for a sub-format");
    ext.extend_from_slice(&[0; 6]);
    ext.extend_from_slice(&SUBTYPE_IEEE_FLOAT_BYTES);
    assert_eq!(ext.len(), 40);
    let f = parse_wfx(FORMAT_WAVE_FORMAT_EX, Some(&ext)).unwrap();
    assert_eq!((f.format, f.frame_bytes), (SampleFormat::F32Le, 8));
    ext[24] = 1;
    let f = parse_wfx(FORMAT_WAVE_FORMAT_EX, Some(&ext)).unwrap();
    assert_eq!(f.format, SampleFormat::S32Le);
    assert_eq!(ext[24..40], SUBTYPE_PCM_BYTES);
    ext[24] = 6; // A-law
    assert_eq!(parse_wfx(FORMAT_WAVE_FORMAT_EX, Some(&ext)), None);
    let mut w = make_wfx(candidate(16, false, true));
    w.sub_format = SubFormat::Other;
    assert_eq!(parse_audio_format(&w), None);
}

fn video_block(width: i32, height: i32, bits: u16, size: u32) -> Vec<u8> {
    let mut b = vec![0u8; 88];
    b[52..56].copy_from_slice(&width.to_le_bytes());
    b[56..60].copy_from_slice(&height.to_le_bytes());
    b[62..64].copy_from_slice(&bits.to_le_bytes());
    b[64..68].copy_from_slice(b"YUY2");
    b[68..72].copy_from_slice(&size.to_le_bytes());
    b
}

#[test]
fn video_blocks_are_parsed() {
    let vf = parse_video_format(FORMAT_VIDEO_INFO, Some(&video_block(1920, -1080, 16, 0)));
    assert_eq!(
        vf,
        Some(VideoFormat {
            width: 1920,
            height: 1080,
            stride: 3840,
            fourcc: code(b"YUY2"),
            frame_size: 4_147_200,
        })
    );
    let vf = parse_video_format(FORMAT_VIDEO_INFO, Some(&video_block(8, 8, 16, 100))).unwrap();
    assert_eq!((vf.frame_size, vf.stride), (100, 12));
    // The product stops at the largest number.
    let vf = parse_video_format(FORMAT_VIDEO_INFO, Some(&video_block(i32::MIN, 4, 16, 0))).unwrap();
    assert_eq!((vf.width, vf.frame_size), (0x8000_0000, u32::MAX / 8));
    assert_eq!(parse_video_format(FORMAT_VIDEO_INFO, Some(&video_block(0, 8, 16, 9))), None);
    assert_eq!(parse_video_format(FORMAT_VIDEO_INFO, Some(&video_block(8, 0, 16, 9))), None);
    assert_eq!(parse_video_format(FORMAT_VIDEO_INFO, Some(&video_block(8, 8, 0, 0))), None);
    assert_eq!(parse_video_format(FORMAT_VIDEO_INFO, Some(&video_block(8, 8, 16, 9)[..87])), None);
    assert_eq!(parse_video_format(FORMAT_VIDEO_INFO, None), None);
    assert_eq!(parse_video_format(FORMAT_WAVE_FORMAT_EX, Some(&video_block(8, 8, 16, 9))), None);
}

#[test]
fn fourccs_are_written() {
    assert_eq!(fourcc_string(code(b"NV12")), "NV12");
    assert_eq!(fourcc_string(code(b"Y8  ")), "Y8");
    assert_eq!(fourcc_string(0), "RGB/BI_RGB");
    assert_eq!(fourcc_str(0), "RGB");
    assert_eq!(fourcc_str(code(b"P010")), "P010");
    assert_eq!(fourcc_string(3), "0x00000003");
    assert_eq!(fourcc_string(0xE412_00AB), "0xE41200AB");
    assert_eq!(fourcc_string(0x2020_2020), "");
}

#[test]
fn player_formats_are_known() {
    for (cc, name) in [
        (b"YUY2", "yuyv422"),
        (b"YUYV", "yuyv422"),
        (b"UYVY", "uyvy422"),
        (b"YVYU", "yvyu422"),
        (b"NV12", "nv12"),
        (b"NV21", "nv21"),
        (b"YV12", "yuv420p"),
        (b"I420", "yuv420p"),
        (b"IYUV", "yuv420p"),
        (b"P010", "p010"),
    ] {
        assert_eq!(mpv_mp_format(code(cc)), Some(name));
    }
    assert_eq!(mpv_mp_format(code(b"MJPG")), None);
    assert_eq!(mpv_mp_format(0), None);
}

#[test]
fn player_commands_are_ready_to_run() {
    let mut vf = VideoFormat {
        width: 1920,
        height: 1080,
        stride: 3840,
        fourcc: code(b"YUY2"),
        frame_size: 4_147_200,
    };
    assert_eq!(
        mpv_command(&vf, "/tmp/lalah-video"),
        "mpv --demuxer=rawvideo --demuxer-rawvideo-w=1920 --demuxer-rawvideo-h=1080 \
         --demuxer-rawvideo-mp-format=yuyv422 --untimed --profile=low-latency /tmp/lalah-video"
    );
    vf.fourcc = code(b"MJPG");
    assert_eq!(
        mpv_command(&vf, "p"),
        "mpv --demuxer=rawvideo --demuxer-rawvideo-w=1920 --demuxer-rawvideo-h=1080 \
         --demuxer-rawvideo-format=MJPG --untimed --profile=low-latency p"
    );
    // Letters that a shell would take for the start of a comment.
    vf.fourcc = code(b"A #B");
    assert_eq!(fourcc_string(vf.fourcc), "A #B");
    assert_eq!(
        mpv_command(&vf, "p"),
        "mpv --demuxer=rawvideo --demuxer-rawvideo-w=1920 --demuxer-rawvideo-h=1080 \
         --demuxer-rawvideo-format=0x42232041 --untimed --profile=low-latency p"
    );
}

#[test]
fn numbers_are_written() {
    let mut s = String::from("n=");
    push_decimal(&mut s, 0);
    push_decimal(&mut s, 1_048_576);
    push_decimal(&mut s, u64::MAX);
    assert_eq!(s, format!("n=01048576{}", u64::MAX));
    let mut h = String::new();
    push_hex8(&mut h, 0x0BAD_F00D);
    assert_eq!(h, "0BADF00D");
}

#[test]
fn numbers_are_parsed_as_std_does() {
    let words = [
        "", "+", "-", "0", "+0", "007", "20", "+20", "-1", "++1", "1 ", " 1", "4294967295",
        "4294967296", "99999999999999999999", "12a", "\u{663}",
    ];
    for w in words {
        assert_eq!(
            parse_number(w, u32::MAX as u64),
            w.parse::<u32>().ok().map(|v| v as u64),
            "{w:?}"
        );
        assert_eq!(parse_number(w, u64::MAX), w.parse::<u64>().ok(), "{w:?}");
    }
    assert_eq!(parse_number("18446744073709551615", u64::MAX), Some(u64::MAX));
    assert_eq!(parse_number("18446744073709551616", u64::MAX), None);
}

#[test]
fn utf16_is_written_as_std_does() {
    for s in ["", "FriendlyName", "{0.0.1.00000000}", "\u{e9}\u{20ac}", "a\u{1f3a4}b"] {
        let mut expect: Vec<u16> = s.encode_utf16().collect();
        expect.push(0);
        assert_eq!(wide(s), expect);
    }
}

#[test]
fn texts_are_compared_and_searched() {
    assert!(same("--shm", "--shm"));
    assert!(!same("--shm", "--shn"));
    assert!(contains("live gamer 4k", "gamer"));
    assert!(contains("live", ""));
    assert!(contains("", ""));
    assert!(!contains("", "a"));
    assert!(!contains("gam", "gamer"));
    assert!(contains("aab", "ab"));
    assert!(!contains("live gamer", "gamer "));
}
