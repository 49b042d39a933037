use pixpull::names::{
    fix_extension, part_file_name, plan_name, render_template, sanitize, segment_path, target,
    NamePlan, PART_SUFFIX,
};
use pixpull::validate::Format;

#[test]
fn template_rendering() {
    assert_eq!(
        render_template("img_{n}.{ext}", Format::Png, 3),
        "img_3.png"
    );
    // {ext} is only substituted when the template asks for it; otherwise
    // fix_extension() appends the detected extension at the caller.
    assert_eq!(
        render_template("img_{n:04}", Format::Jpeg, 7),
        "img_0007"
    );
    assert_eq!(
        render_template("set/{n}", Format::Jpeg, 1),
        "set_1"
    );
}

#[test]
fn sanitization() {
    assert_eq!(sanitize("a/b:c*d?e\"f<g>h|i"), "a_b_c_d_e_f_g_h_i");
    assert_eq!(sanitize("..hidden"), "hidden");
    assert_eq!(sanitize("trailing. "), "trailing");
}

#[test]
fn extension_fixing() {
    assert_eq!(
        fix_extension("/tmp/photo.gif", Format::Jpeg),
        "/tmp/photo.jpg"
    );
    assert_eq!(
        fix_extension("/tmp/photoless", Format::Jpeg),
        "/tmp/photoless.jpg"
    );
}

#[test]
fn names_cannot_leave_the_output_directory() {
    for name in ["../../etc/passwd", "/etc/passwd", "..", "a\\b", "\u{0}x", ".", "con\u{7}"] {
        let clean = sanitize(name);
        assert!(!clean.contains('/') && !clean.contains('\\'), "{}", clean);
        assert!(!clean.starts_with('.') && !clean.ends_with('.'), "{}", clean);
        assert_eq!(sanitize(&clean), clean);
        let path = target("out", &NamePlan::Template(name.to_string()), None, 1);
        assert_eq!(path, format!("out/{}", clean));
    }
}

#[test]
fn long_names_are_cut() {
    let long = "x".repeat(300);
    assert_eq!(sanitize(&long).len(), 200);
    let wide = "\u{e9}".repeat(201);
    assert_eq!(sanitize(&wide).chars().count(), 200);
    let fits = "\u{e9}".repeat(150);
    assert_eq!(sanitize(&fits), fits);
}

#[test]
fn odd_placeholders_stay() {
    assert_eq!(render_template("{x}_{n}", Format::Png, 2), "{x}_2");
    assert_eq!(render_template("{n", Format::Png, 2), "{n");
    assert_eq!(render_template("{n:q}", Format::Png, 2), "2");
    assert_eq!(render_template("{n:6}", Format::Png, 1234567), "1234567");
    assert_eq!(render_template("{n:06}.{ext}", Format::Webp, 42), "000042.webp");
}

#[test]
fn own_name_goes_before_template_and_basename() {
    let own = || Some("own.jpg".to_string());
    let template = Some("t_{n}".to_string());
    let base = || Some("base.gif".to_string());
    let plan = plan_name(own(), &template, base());
    assert_eq!(plan.known_name().as_deref(), Some("own.jpg"));
    let plan = plan_name(None, &template, base());
    assert_eq!(plan.known_name(), None);
    assert_eq!(plan.resolve(Some(Format::Png), 3), "t_3");
    let plan = plan_name(None, &None, base());
    assert_eq!(plan.known_name().as_deref(), Some("base.gif"));
    let plan = plan_name(None, &None, None);
    assert_eq!(plan.known_name(), None);
    assert_eq!(plan.resolve(Some(Format::Jpeg), 7), "image_7.jpg");
}

#[test]
fn extension_is_corrected() {
    let plan = NamePlan::Fixed("wrongext.gif".to_string());
    assert_eq!(target("pics", &plan, Some(Format::Png), 1), "pics/wrongext.png");
    assert_eq!(target("pics", &plan, Some(Format::Gif), 1), "pics/wrongext.gif");
    assert_eq!(target("pics/", &plan, None, 1), "pics/wrongext.gif");
    let plan = NamePlan::Template("img_{n:04}".to_string());
    assert_eq!(target(".", &plan, Some(Format::Jpeg), 7), "./img_0007.jpg");
}

#[test]
fn part_and_segment_files_are_named() {
    assert_eq!(part_file_name(0xabc), ".0000000000000abc.part");
    assert_eq!(part_file_name(u64::MAX), ".ffffffffffffffff.part");
    assert_eq!(segment_path("o/.00.part", 12), "o/.00.part.seg12");
    assert_ne!(segment_path("p", 1), segment_path("p", 11));
    assert_eq!(PART_SUFFIX, ".part");
}

/// The extension corrected with the path types of std.
fn fixed_with_std(path: &str, format: Format) -> String {
    let path = std::path::Path::new(path);
    let name = path.file_name().unwrap_or_default().to_string_lossy().to_string();
    let fixed = match name.rsplit_once('.') {
        Some((stem, _)) if !stem.is_empty() => format!("{}.{}", stem, format.ext()),
        _ => format!("{}.{}", name, format.ext()),
    };
    path.with_file_name(fixed).to_string_lossy().to_string()
}

#[test]
fn extension_is_fixed_on_the_last_component() {
    assert_eq!(fix_extension("/tmp/photo.gif/", Format::Jpeg), "/tmp/photo.jpg");
    assert_eq!(fix_extension("/tmp/photo.gif/.", Format::Jpeg), "/tmp/photo.jpg");
    assert_eq!(fix_extension("a//b.gif", Format::Jpeg), "a/b.jpg");
    assert_eq!(fix_extension(".gif", Format::Jpeg), ".gif.jpg");
    assert_eq!(fix_extension("a.tar.gz", Format::Jpeg), "a.tar.jpg");
    // Every path of up to seven of these characters.
    let letters = ['/', '.', 'a'];
    let mut paths = vec![String::new()];
    let mut from = 0;
    for _ in 0..7 {
        let to = paths.len();
        for i in from..to {
            for c in letters {
                let mut longer = paths[i].clone();
                longer.push(c);
                paths.push(longer);
            }
        }
        from = to;
    }
    for path in &paths {
        let fixed = fix_extension(path, Format::Webp);
        assert_eq!(fixed, fixed_with_std(path, Format::Webp), "{}", path);
        if std::path::Path::new(path).file_name().is_some() {
            assert_eq!(fix_extension(&fixed, Format::Webp), fixed, "{}", path);
            assert_eq!(
                std::path::Path::new(&fixed).parent(),
                std::path::Path::new(path).parent(),
                "{}",
                path
            );
        }
    }
}
