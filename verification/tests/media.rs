use meev::error::AppError;
use meev::media::{
    accept_upload, attachment_urls, content_disposition, effective_mime, file_kind_from_mime, media_kind,
    sanitize_file_name, stored_extension, MediaKind, ProcessedMedia, UploadAction, UploadJob,
    UploadOutcome, UploadState,
};

fn job(kind: MediaKind, ext: &str, mime: &str) -> UploadJob {
    UploadJob {
        kind,
        input: "/tmp/in".to_string(),
        stem: "/up/2024/05/id".to_string(),
        ext: ext.to_string(),
        mime: mime.to_string(),
    }
}

fn ffmpeg_args(a: UploadAction) -> Vec<String> {
    match a {
        UploadAction::Ffmpeg(v) => v,
        other => panic!("expected ffmpeg, got {:?}", other),
    }
}

#[test]
fn file_names_are_sanitized() {
    assert_eq!(sanitize_file_name("a/b\\c\"d'e:f.png"), "a_b_c_d_e_f.png");
    assert_eq!(sanitize_file_name("\u{1}x"), "_x");
    assert_eq!(sanitize_file_name("   "), "file");
    assert_eq!(sanitize_file_name(""), "file");
    assert_eq!(sanitize_file_name(&"é".repeat(200)).chars().count(), 160);
    assert_eq!(sanitize_file_name("صورة.jpg"), "صورة.jpg");
}

#[test]
fn kinds_by_mime_prefix() {
    assert_eq!(file_kind_from_mime("image/png"), "image");
    assert_eq!(file_kind_from_mime("video/mp4"), "video");
    assert_eq!(file_kind_from_mime("audio/ogg"), "audio");
    assert_eq!(file_kind_from_mime("application/pdf"), "file");
    assert_eq!(file_kind_from_mime("image"), "file");
    assert_eq!(media_kind("image/"), MediaKind::Image);
}

#[test]
fn empty_mime_becomes_octet_stream() {
    assert_eq!(effective_mime(""), "application/octet-stream");
    assert_eq!(effective_mime("text/plain"), "text/plain");
}

#[test]
fn stored_extension_rules() {
    assert_eq!(stored_extension("report.PDF"), "PDF");
    assert_eq!(stored_extension("archive.tar.gz"), "gz");
    assert_eq!(stored_extension("noext"), "bin");
    assert_eq!(stored_extension(".bashrc"), "bin");
    assert_eq!(stored_extension("a.toolongextension"), "bin");
    assert_eq!(stored_extension("a.b-c"), "bin");
    assert_eq!(stored_extension("a.abcdefghij"), "abcdefghij");
}

#[test]
fn content_disposition_uses_sanitized_name() {
    assert_eq!(content_disposition("my\"file.txt"), "attachment; filename=\"my_file.txt\"");
}

#[test]
fn attachment_urls_by_id() {
    let (file, thumb) = attachment_urls(0x67e5504410b1426f9247bb680e5fe0c8, true);
    assert_eq!(file, "/api/media/67e55044-10b1-426f-9247-bb680e5fe0c8/file");
    assert_eq!(thumb.as_deref(), Some("/api/media/67e55044-10b1-426f-9247-bb680e5fe0c8/thumb"));
    let (_, none) = attachment_urls(1, false);
    assert!(none.is_none());
}

#[test]
fn image_pipeline_falls_back_to_jpeg() {
    let j = job(MediaKind::Image, "png", "image/png");
    let (s, a) = j.step(&UploadState::Begin, true);
    assert_eq!(s, UploadState::ImageMain);
    let args = ffmpeg_args(a);
    assert_eq!(
        args,
        vec!["-y", "-i", "/tmp/in", "-vf", "scale='min(1920\\,iw)':-2", "-c:v", "libwebp", "-quality", "80", "-preset", "photo", "/up/2024/05/id.webp"]
    );
    let (s, a) = j.step(&s, false);
    assert_eq!(s, UploadState::ImageFallback);
    assert_eq!(
        ffmpeg_args(a),
        vec!["-y", "-i", "/tmp/in", "-vf", "scale='min(1920\\,iw)':-2", "-q:v", "2", "/up/2024/05/id.jpg"]
    );
    let (s, a) = j.step(&s, true);
    assert_eq!(s, UploadState::ImageThumb { jpeg: true });
    assert_eq!(ffmpeg_args(a).last().unwrap(), "/up/2024/05/id_t.webp");
    let (s, a) = j.step(&s, true);
    assert_eq!(s, UploadState::ImageProbe { jpeg: true, thumb: true });
    assert!(matches!(a, UploadAction::Probe(ref p) if p == "/up/2024/05/id.jpg"));
    let (s, a) = j.step(&s, true);
    assert_eq!(s, UploadState::Done);
    match a {
        UploadAction::Finish(o) => {
            assert_eq!(o.stored, "/up/2024/05/id.jpg");
            assert_eq!(o.mime, "image/jpeg");
            assert_eq!(o.thumb.as_deref(), Some("/up/2024/05/id_t.webp"));
            assert!(o.probed);
        }
        other => panic!("unexpected {:?}", other),
    }
}

#[test]
fn image_pipeline_fails_when_both_encoders_fail() {
    let j = job(MediaKind::Image, "png", "image/png");
    let (s, _) = j.step(&UploadState::Begin, true);
    let (s, _) = j.step(&s, false);
    let (s, a) = j.step(&s, false);
    assert_eq!(s, UploadState::Done);
    match a {
        UploadAction::Fail(AppError::UnsupportedMedia(m)) => assert_eq!(m, "فشل ضغط الصورة بواسطة ffmpeg."),
        other => panic!("unexpected {:?}", other),
    }
}

#[test]
fn video_pipeline() {
    let j = job(MediaKind::Video, "mov", "video/quicktime");
    let (s, a) = j.step(&UploadState::Begin, true);
    let args = ffmpeg_args(a);
    assert_eq!(args.len(), 20);
    assert_eq!(args.last().unwrap(), "/up/2024/05/id.mp4");
    let (s, a) = j.step(&s, true);
    assert_eq!(
        ffmpeg_args(a),
        vec!["-y", "-ss", "1", "-i", "/up/2024/05/id.mp4", "-frames:v", "1", "-vf", "scale='min(320\\,iw)':-2", "-c:v", "libwebp", "-quality", "75", "/up/2024/05/id_t.webp"]
    );
    let (s, _) = j.step(&s, false);
    assert_eq!(s, UploadState::VideoProbe { thumb: false });
    let (_, a) = j.step(&s, true);
    match a {
        UploadAction::Finish(o) => {
            assert_eq!(o.mime, "video/mp4");
            assert!(o.thumb.is_none());
        }
        other => panic!("unexpected {:?}", other),
    }
    let (_, a) = j.step(&UploadState::VideoMain, false);
    assert!(matches!(a, UploadAction::Fail(AppError::UnsupportedMedia(ref m)) if m == "فشل ضغط الفيديو بواسطة ffmpeg."));
}

#[test]
fn audio_pipeline() {
    let j = job(MediaKind::Audio, "ogg", "audio/ogg");
    let (s, a) = j.step(&UploadState::Begin, true);
    assert_eq!(
        ffmpeg_args(a),
        vec!["-y", "-i", "/tmp/in", "-c:a", "aac", "-b:a", "96k", "/up/2024/05/id.m4a"]
    );
    let (s, a) = j.step(&s, true);
    assert!(matches!(a, UploadAction::Probe(ref p) if p == "/up/2024/05/id.m4a"));
    let (_, a) = j.step(&s, true);
    assert!(matches!(a, UploadAction::Finish(ref o) if o.mime == "audio/mp4" && o.probed));
    let (_, a) = j.step(&UploadState::AudioMain, false);
    assert!(matches!(a, UploadAction::Fail(AppError::UnsupportedMedia(ref m)) if m == "فشل ضغط الصوت بواسطة ffmpeg."));
}

#[test]
fn other_files_are_copied() {
    let j = job(MediaKind::File, "pdf", "");
    let (s, a) = j.step(&UploadState::Begin, true);
    assert!(matches!(a, UploadAction::Copy(ref p) if p == "/up/2024/05/id.pdf"));
    let (s, a) = j.step(&s, true);
    assert_eq!(s, UploadState::Done);
    match a {
        UploadAction::Finish(o) => {
            assert_eq!(o.stored, "/up/2024/05/id.pdf");
            assert_eq!(o.mime, "application/octet-stream");
            assert!(!o.probed);
        }
        other => panic!("unexpected {:?}", other),
    }
    let (_, a) = j.step(&UploadState::Done, true);
    assert!(matches!(a, UploadAction::Idle));
}

#[test]
fn processed_media_keeps_probe_results_only_when_probed() {
    let outcome = UploadOutcome { stored: "s".into(), mime: "text/plain".into(), thumb: None, probed: false };
    let p = ProcessedMedia::from_upload(MediaKind::File, outcome, "2024/05/x.txt".into(), None, 12, (Some(1), Some(2), Some(3)), "h".into());
    assert_eq!(p.kind, "file");
    assert_eq!((p.width, p.height, p.duration_ms), (None, None, None));
    assert_eq!(p.size, 12);
    assert!(p.require_image().is_err());
    let outcome = UploadOutcome { stored: "s".into(), mime: "image/webp".into(), thumb: Some("t".into()), probed: true };
    let p = ProcessedMedia::from_upload(MediaKind::Image, outcome, "a".into(), Some("b".into()), 5, (Some(640), Some(480), None), "h".into());
    assert_eq!(p.kind, "image");
    assert_eq!(p.mime_type, "image/webp");
    assert_eq!((p.width, p.height), (Some(640), Some(480)));
    assert!(p.require_image().is_ok());
}

#[test]
fn profile_images_must_be_images() {
    let outcome = UploadOutcome { stored: "s".into(), mime: "video/mp4".into(), thumb: None, probed: true };
    let p = ProcessedMedia::from_upload(MediaKind::Video, outcome, "a".into(), None, 1, (None, None, Some(1000)), "h".into());
    match p.require_image() {
        Err(AppError::BadRequest(m)) => assert_eq!(m, "يجب أن تكون الصورة من نوع صورة (PNG/JPEG/WebP...)."),
        other => panic!("unexpected {:?}", other),
    }
}

#[test]
fn sanitized_names_hold_no_unsafe_characters() {
    let out = sanitize_file_name("..\\..//etc:passwd\"'\u{0}\u{7f}\u{85}");
    assert!(!out.chars().any(|c| c.is_control() || "/\\\"':".contains(c)));
    assert!(!out.is_empty() && out.chars().count() <= 160);
    assert_eq!(out, ".._..__etc_passwd_____");
}

#[test]
fn every_pipeline_finishes_within_five_steps() {
    for kind in [MediaKind::Image, MediaKind::Video, MediaKind::Audio, MediaKind::File] {
        for pattern in 0u32..32 {
            let j = job(kind, "bin", "x/y");
            let mut s = UploadState::Begin;
            let mut ok = true;
            let mut steps = 0;
            let mut ended = false;
            while s != UploadState::Done {
                let (next, a) = j.step(&s, ok);
                steps += 1;
                ok = pattern & (1 << steps) != 0;
                if next == UploadState::Done {
                    assert!(matches!(a, UploadAction::Finish(_) | UploadAction::Fail(_)));
                    ended = true;
                } else {
                    assert!(matches!(a, UploadAction::Ffmpeg(_) | UploadAction::Probe(_) | UploadAction::Copy(_)));
                }
                s = next;
            }
            assert!(ended && steps <= 5);
        }
    }
}

#[test]
fn uploads_are_named_and_typed() {
    let (n, m) = accept_upload("a/b.png", Some("image/png"), 10).unwrap();
    assert_eq!((n.as_str(), m.as_str()), ("a_b.png", "image/png"));
    let (_, m) = accept_upload("x", None, 1).unwrap();
    assert_eq!(m, "application/octet-stream");
    match accept_upload("x", None, 0) {
        Err(AppError::BadRequest(msg)) => assert_eq!(msg, "الملف المرفوع فارغ."),
        other => panic!("unexpected {:?}", other),
    }
}

#[test]
fn stored_stem_is_month_then_id() {
    assert_eq!(
        meev::media::stored_stem("2024/03", 0x67e5504410b1426f9247bb680e5fe0c8),
        "2024/03/67e55044-10b1-426f-9247-bb680e5fe0c8"
    );
}
