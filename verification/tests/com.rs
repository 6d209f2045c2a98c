use std::cell::Cell;

use aw_man::com::deduped::DedupedVec;
use aw_man::com::frames::{AnimatedImage, HashedFrame, LONGEST};
use aw_man::com::image::{Image, ImageData};
use aw_man::com::mode::{DisplayMode, Fit, Modes};
use aw_man::com::one_or_two::OneOrTwo;
use aw_man::com::raw_image::{RawImage, Samples};
use aw_man::com::res::{Res, TargetRes};
use aw_man::com::toggle::{ScrollMotionTarget, Toggle};

fn res(w: u32, h: u32) -> Res {
    Res { w, h }
}

fn target(w: u32, h: u32, fit: Fit) -> TargetRes {
    TargetRes { res: res(w, h), fit, half_width: false }
}

fn chars(s: &str) -> Vec<char> {
    s.chars().collect()
}

#[test]
fn resolution_is_read() {
    assert_eq!(Res::from_str("3840x2160").unwrap(), res(3840, 2160));
    assert_eq!(Res::from_str("0x0").unwrap(), res(0, 0));
    assert_eq!(Res::from_str("4294967295x1").unwrap(), res(u32::MAX, 1));
}

#[test]
fn resolution_that_is_none_is_refused() {
    for s in ["", "x", "3840", "3840x", "x2160", "a x b", "4294967296x1", "1x2x3", " 1x2", "-1x2"] {
        let e = Res::from_str(s).unwrap_err();
        assert_eq!(e.message(), "Expected a string of the form WIDTHxHEIGHT. Example: 3840x2160");
    }
}

#[test]
fn resolution_is_written_as_it_is_read() {
    for r in [res(0, 0), res(1920, 1080), res(u32::MAX, 7)] {
        assert_eq!(Res::from_str(&r.text()).unwrap(), r);
    }
    assert_eq!(res(640, 480).text(), "640x480");
}

#[test]
fn fit_to_container() {
    let t = target(1000, 1000, Fit::Container);
    assert_eq!(res(2000, 1000).fit_inside(t), res(1000, 500));
    assert_eq!(res(1000, 4000).fit_inside(t), res(250, 1000));
    assert_eq!(res(500, 500).fit_inside(t), res(500, 500));
    assert_eq!(res(1333, 1999).fit_inside(t), res(667, 1000));
}

#[test]
fn fit_to_one_direction() {
    assert_eq!(res(2000, 5000).fit_inside(target(1000, 1000, Fit::Width)), res(1000, 2500));
    assert_eq!(res(2000, 5000).fit_inside(target(1000, 1000, Fit::Height)), res(400, 1000));
    assert_eq!(res(2000, 5000).fit_inside(target(1000, 1000, Fit::FullSize)), res(2000, 5000));
}

#[test]
fn fit_to_half_the_width() {
    let t = TargetRes { res: res(1000, 1000), fit: Fit::Container, half_width: true };
    assert_eq!(res(1000, 1000).fit_inside(t), res(500, 500));
}

#[test]
fn fitted_page_does_not_vanish() {
    assert_eq!(res(100_000, 1).fit_inside(target(100, 100, Fit::Container)), res(100, 1));
    assert_eq!(res(1, 100_000).fit_inside(target(100, 100, Fit::Container)), res(1, 100));
}

#[test]
fn fitting_twice_is_fitting_once() {
    let t = target(777, 333, Fit::Container);
    for r in [res(1234, 567), res(3, 9000), res(9000, 3), res(777, 333), res(1, 1)] {
        let once = r.fit_inside(t);
        assert_eq!(once.fit_inside(t), once);
        assert!(once.w <= r.w && once.h <= r.h);
        assert!(once.w <= 777 && once.h <= 333);
    }
    for t in [target(0, 0, Fit::Container), target(0, 5, Fit::Height), target(7, 0, Fit::Width), t] {
        for r in [res(0, 0), res(0, 9000), res(9000, 0), res(9000, 9000)] {
            let once = r.fit_inside(t);
            assert_eq!(once.fit_inside(t), once);
        }
    }
}

#[test]
fn sizes_of_widgets() {
    assert_eq!(Res::from_signed(640, 480), res(640, 480));
    let t = TargetRes::from_signed(640, 480, Fit::Width, DisplayMode::DualPage);
    assert_eq!(t.res, res(640, 480));
    assert!(t.half_width);
    assert!(!TargetRes::from_signed(1, 1, Fit::Width, DisplayMode::Single).half_width);
    assert!(res(0, 5).is_empty());
    assert!(!res(1, 5).is_empty());
}

#[test]
fn toggles_are_read_in_any_case() {
    assert_eq!(Toggle::try_from(&chars("toggle")), Ok(Toggle::Change));
    assert_eq!(Toggle::try_from(&chars("ON")), Ok(Toggle::On));
    assert_eq!(Toggle::try_from(&chars("Off")), Ok(Toggle::Off));
    assert_eq!(Toggle::try_from(&chars("of")), Err(()));
    assert_eq!(Toggle::try_from(&chars("")), Err(()));
}

#[test]
fn toggles_switch() {
    for (t, before, after, changed) in [
        (Toggle::Change, true, false, true),
        (Toggle::Change, false, true, true),
        (Toggle::On, true, true, false),
        (Toggle::On, false, true, true),
        (Toggle::Off, true, false, true),
        (Toggle::Off, false, false, false),
    ] {
        let mut v = before;
        assert_eq!(t.apply(&mut v), changed);
        assert_eq!(v, after);
        assert_eq!(t.apply_cell(before), if changed { Some(after) } else { None });
    }
}

#[test]
fn toggling_twice_changes_nothing() {
    let mut v = true;
    assert!(Toggle::Change.apply(&mut v));
    assert!(Toggle::Change.apply(&mut v));
    assert!(v);
}

#[test]
fn toggles_run_what_is_asked() {
    let on = Cell::new(0);
    let off = Cell::new(0);
    Toggle::On.run_if_change(false, || on.set(on.get() + 1), || off.set(off.get() + 1));
    Toggle::On.run_if_change(true, || on.set(on.get() + 1), || off.set(off.get() + 1));
    Toggle::Change.run_if_change(true, || on.set(on.get() + 1), || off.set(off.get() + 1));
    assert_eq!((on.get(), off.get()), (1, 1));
}

#[test]
fn scroll_targets_are_read() {
    assert_eq!(ScrollMotionTarget::try_from(&chars("Start")), Ok(ScrollMotionTarget::Start));
    assert_eq!(ScrollMotionTarget::try_from(&chars("end")), Ok(ScrollMotionTarget::End));
    assert_eq!(ScrollMotionTarget::try_from(&chars("current")), Ok(ScrollMotionTarget::Maintain));
    assert_eq!(ScrollMotionTarget::try_from(&chars("middle")), Err(()));
}

#[test]
fn mode_words() {
    assert_eq!(DisplayMode::DualPageReversed.word(), "dualpagereversed");
    assert_eq!(DisplayMode::VerticalStrip.word(), "verticalstrip");
    assert_eq!(Fit::FullSize.word(), "fullsize");
    assert!(!DisplayMode::HorizontalStrip.vertical_pagination());
    assert!(DisplayMode::VerticalStrip.vertical_pagination());
    assert!(DisplayMode::HorizontalStrip.strip() && DisplayMode::VerticalStrip.strip());
    assert!(DisplayMode::DualPage.dual_page() && !DisplayMode::Single.dual_page());
}

#[test]
fn mode_letters() {
    let plain = Modes::default();
    assert_eq!(plain.gui_str(), "");
    let all = Modes { manga: true, upscaling: true, fit: Fit::Container, display: DisplayMode::Single };
    assert_eq!(all.gui_str(), "UM");
}

#[test]
fn one_or_two() {
    let one = OneOrTwo::One(1);
    let two = OneOrTwo::Two(1, 2);
    assert_eq!((one.first(), one.second(), one.count()), (&1, None, 1));
    assert_eq!((two.first(), two.second(), two.count()), (&1, Some(&2), 2));
    assert!(two.either(|n| *n == 2));
    assert!(!one.either(|n| *n == 2));
}

#[test]
fn deduped_values_are_shared() {
    let v = DedupedVec { deduped: vec!['a', 'b'], indices: vec![0, 1, 0] };
    assert_eq!(v.len(), 3);
    assert_eq!([*v.index(0), *v.index(1), *v.index(2)], ['a', 'b', 'a']);
    let upper = v.map(|c| c.to_ascii_uppercase());
    assert_eq!(upper.deduped, vec!['A', 'B']);
    assert_eq!(upper.indices, vec![0, 1, 0]);
}

fn raw(w: u32, h: u32, samples: Samples) -> RawImage {
    RawImage { res: res(w, h), samples }
}

#[test]
fn grey_pixels_need_one_channel() {
    let i = Image::from_raw(raw(2, 1, Samples::Rgba8(vec![1, 1, 1, 255, 9, 9, 9, 255])), false, 7);
    assert!(matches!(&*i.data, ImageData::Grey(v) if *v == vec![1, 9]));
    assert_eq!((i.res, i.stride, i.serial), (res(2, 1), 2, 7));
    let i = Image::from_raw(raw(2, 1, Samples::Rgb8(vec![1, 1, 1, 9, 9, 9])), false, 7);
    assert!(matches!(&*i.data, ImageData::Grey(v) if *v == vec![1, 9]));
}

#[test]
fn grey_pixels_with_alpha_need_two_channels() {
    let i = Image::from_raw(raw(2, 1, Samples::Rgba8(vec![1, 1, 1, 3, 9, 9, 9, 255])), false, 0);
    assert!(matches!(&*i.data, ImageData::GreyA(v) if *v == vec![1, 3, 9, 255]));
    assert!(i.grey_alpha());
}

#[test]
fn opaque_pixels_need_three_channels() {
    let i = Image::from_raw(raw(2, 1, Samples::Rgba8(vec![1, 2, 3, 255, 9, 9, 9, 255])), false, 0);
    assert!(matches!(&*i.data, ImageData::Rgb(v) if *v == vec![1, 2, 3, 9, 9, 9]));
    assert_eq!((i.channels(), i.stride, i.data.format()), (3, 6, "rgb"));
}

#[test]
fn other_pixels_need_all_channels() {
    let bytes = vec![1, 2, 3, 4, 5, 6, 7, 255];
    let i = Image::from_raw(raw(2, 1, Samples::Rgba8(bytes.clone())), false, 0);
    assert!(matches!(&*i.data, ImageData::Rgba(v) if *v == bytes));
    assert_eq!(i.as_ptr(), &bytes[..]);
    assert_eq!(i.as_offset_ptr(1, 0), &bytes[4..]);
}

#[test]
fn all_channels_if_wanted() {
    let i = Image::from_raw(raw(2, 1, Samples::Luma8(vec![1, 9])), true, 0);
    assert!(matches!(&*i.data, ImageData::Rgba(v) if *v == vec![1, 1, 1, 255, 9, 9, 9, 255]));
}

#[test]
fn deep_samples_become_bytes() {
    let i = Image::from_raw(raw(2, 1, Samples::Luma16(vec![0, 65535])), false, 0);
    assert!(matches!(&*i.data, ImageData::Grey(v) if *v == vec![0, 255]));
    let i = Image::from_raw(raw(1, 1, Samples::LumaA16(vec![65535, 0])), false, 0);
    assert!(matches!(&*i.data, ImageData::GreyA(v) if *v == vec![255, 0]));
    let i = Image::from_raw(raw(1, 1, Samples::Rgb16(vec![65535, 0, 65535])), false, 0);
    assert!(matches!(&*i.data, ImageData::Rgb(v) if *v == vec![255, 0, 255]));
    let i = Image::from_raw(raw(1, 1, Samples::Rgb16(vec![65535, 65535, 65535])), false, 0);
    assert!(matches!(&*i.data, ImageData::Grey(v) if *v == vec![255]));
    let i = Image::from_raw(raw(1, 1, Samples::Rgba16(vec![65535, 0, 65535, 0])), false, 0);
    assert!(matches!(&*i.data, ImageData::Rgba(v) if *v == vec![255, 0, 255, 0]));
}

#[test]
fn copies_of_images_are_the_same() {
    let i = Image::from_data(ImageData::Grey(vec![1]), res(1, 1), 1);
    let j = Image::from_data(ImageData::Grey(vec![1]), res(1, 1), 2);
    assert!(i.is_same(&i.share()));
    assert!(!i.is_same(&j));
}

fn frame(serial: u64, shown: u128, hash: u64) -> HashedFrame {
    (Image::from_data(ImageData::Grey(vec![0]), res(1, 1), serial), shown, hash)
}

#[test]
fn equal_frames_are_kept_once() {
    let a = AnimatedImage::new(
        vec![frame(1, 20_000_000, 7), frame(2, 30_000_000, 8), frame(3, 50_000_000, 7)],
        9,
    );
    assert_eq!(a.dur(), 100_000_000);
    assert_eq!(a.frames().cumulative_dur, vec![0, 20_000_000, 50_000_000]);
    assert_eq!(a.frames().frames.indices, vec![0, 1, 0]);
    let serials: Vec<u64> = a.frames().frames.deduped.iter().map(|f| f.0.serial).collect();
    assert_eq!(serials, vec![1, 2]);
}

#[test]
fn frames_without_time_take_a_tenth_of_a_second() {
    let a = AnimatedImage::new(vec![frame(1, 0, 1), frame(2, 5, 2)], 0);
    assert_eq!(a.frames().cumulative_dur, vec![0, 100_000_000]);
    assert_eq!(a.dur(), 100_000_005);
}

#[test]
fn endless_animations_do_not_overflow() {
    let a = AnimatedImage::new(vec![frame(1, LONGEST, 1), frame(2, LONGEST, 2)], 0);
    assert_eq!(a.dur(), LONGEST);
}

#[test]
fn deduped_values_are_changed_once() {
    let mut v = DedupedVec { deduped: vec![1, 2], indices: vec![0, 1, 0] };
    for n in v.iter_deduped_mut() {
        *n += 10;
    }
    assert_eq!([*v.index(0), *v.index(1), *v.index(2)], [11, 12, 11]);
}
