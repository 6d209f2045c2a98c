use aw_man::com::content::{GuiContent, OffscreenContent};
use aw_man::com::displayable::{Displayable, ImageWithRes};
use aw_man::com::frames::AnimatedImage;
use aw_man::com::image::{Image, ImageData};
use aw_man::com::res::Res;
use aw_man::gui::player::{AnimationStatus, PlayChange, Player};
use aw_man::gui::renderable::{Preloadable, Renderable};
use aw_man::gui::renderer::{DisplayedContent, ProgressKind, Renderer};
use aw_man::gui::static_image::{
    count_tiles, is_visible_1d, reuses_whole, tile_source, AllocatedTextures, DrawPlan, Placement,
    PreloadTask, SingleTexture, StaticImage, TextureLayout, TileSource, Visibility, TILE_SIZE,
};

fn res(w: u32, h: u32) -> Res {
    Res { w, h }
}

fn image(w: u32, h: u32, serial: u64) -> Image {
    Image::from_data(ImageData::Grey(vec![0; (w * h) as usize]), res(w, h), serial)
}

fn with_res(w: u32, h: u32, serial: u64) -> ImageWithRes {
    ImageWithRes { img: image(w, h, serial), file_res: res(w, h), original_res: res(w, h) }
}

fn page(serial: u64) -> Displayable {
    Displayable::Image(with_res(10, 10, serial))
}

fn animation(times: &[u128]) -> AnimatedImage {
    let frames = times.iter().enumerate().map(|(i, t)| (image(1, 1, i as u64), *t, i as u64));
    AnimatedImage::new(frames.collect(), 77)
}

fn placed(columns: (i32, i32), rows: (i32, i32)) -> Placement {
    Placement {
        empty: false,
        too_large: false,
        columns,
        rows,
        tile_columns: vec![columns],
        tile_rows: vec![rows],
        tile: 512,
        display: res(1000, 1000),
        step: 0,
    }
}

#[test]
fn visibility_in_one_direction() {
    assert_eq!(is_visible_1d(0, 999, 512, 1000, 0), Visibility::Complete);
    assert_eq!(is_visible_1d(-10, 500, 512, 1000, 0), Visibility::Partial);
    assert_eq!(is_visible_1d(5000, 6000, 512, 1000, 0), Visibility::Unload);
    assert_eq!(Visibility::Complete.combine(Visibility::Partial), Visibility::Partial);
    assert_eq!(Visibility::Unload.combine(Visibility::Complete), Visibility::Unload);
}

#[test]
fn tiles_are_counted() {
    assert_eq!(count_tiles(1), 1);
    assert_eq!(count_tiles(512), 1);
    assert_eq!(count_tiles(513), 2);
    assert_eq!(count_tiles(8192), 16);
}

#[test]
fn tiles_stay_inside_the_image() {
    let r = res(1000, 700);
    assert_eq!(tile_source(r, 0, 0), TileSource { x: 0, y: 0, w: 512, h: 512 });
    assert_eq!(tile_source(r, 1, 1), TileSource { x: 512, y: 512, w: 488, h: 188 });
    let img = image(1000, 700, 1);
    let t = tile_source(r, 1, 1);
    let last = t.h as usize - 1;
    let first_byte = (t.y as usize + last) * img.stride + t.x as usize;
    assert_eq!(first_byte + t.w as usize, img.as_ptr().len());
    assert_eq!(img.as_offset_ptr(t.x, t.y).len(), 1000 * 188 - 512);
    assert!(reuses_whole(Some(r), r) && !reuses_whole(Some(res(1, 1)), r) && !reuses_whole(None, r));
}

#[test]
fn textures_of_small_images() {
    let mut s: StaticImage<u8> = StaticImage::new(with_res(10, 10, 1), AllocatedTextures::Single(7));
    assert!(matches!(s.texture, TextureLayout::Single(SingleTexture::Allocated(7))));
    assert!(s.needs_preload());
    assert_eq!(s.take_whole(), Some(7));
    s.set_whole(7);
    assert!(!s.needs_preload());
    assert!(matches!(s.take_textures(), AllocatedTextures::Single(7)));
    assert!(matches!(s.take_textures(), AllocatedTextures::Nothing));
}

#[test]
fn textures_of_large_images() {
    let mut s: StaticImage<u8> =
        StaticImage::new(with_res(8193, 1, 1), AllocatedTextures::Tiles(vec![1, 2]));
    assert!(matches!(&s.texture, TextureLayout::Tiled { tiles, .. } if tiles.len() == 1 && tiles[0].len() == 17));
    assert_eq!(s.take_tile(), Some(2));
    s.set_tile(3, 0, 2);
    s.mark_uploaded();
    match s.take_textures() {
        AllocatedTextures::Tiles(mut v) => {
            v.sort();
            assert_eq!(v, vec![1, 2]);
        }
        other => panic!("{other:?}"),
    }
    assert!(matches!(s.take_textures(), AllocatedTextures::Nothing));
}

#[test]
fn visible_images_are_drawn() {
    let mut s: StaticImage<u8> = StaticImage::new(with_res(10, 10, 1), AllocatedTextures::Nothing);
    assert!(matches!(s.draw(&placed((0, 9), (0, 9))), DrawPlan::Whole(true)));
    s.set_whole(1);
    assert!(matches!(s.draw(&placed((0, 9), (0, 9))), DrawPlan::Whole(false)));
    assert!(matches!(s.draw(&placed((5000, 5009), (0, 9))), DrawPlan::Skip(PreloadTask::Nothing)));
    let mut nowhere = placed((0, 9), (0, 9));
    nowhere.empty = true;
    assert!(matches!(s.draw(&nowhere), DrawPlan::Skip(_)));
}

#[test]
fn frames_follow_one_another() {
    let a = animation(&[10, 20, 30]);
    let mut p = Player::new(&a, true, 1000);
    assert_eq!((p.index, p.status), (0, AnimationStatus::Playing(1010)));
    p.advance_animation(&a, 1010);
    assert_eq!(p.index, 0);
    assert_eq!(p.advance_animation(&a, 1011), 19);
    assert_eq!(p.index, 1);
    assert_eq!(p.get_elapsed(&a, 1015), 15);
    p.advance_animation(&a, 1031);
    assert_eq!(p.index, 2);
    p.advance_animation(&a, 1061);
    assert_eq!(p.index, 0);
}

#[test]
fn pausing_keeps_the_place() {
    let a = animation(&[10, 20, 30]);
    let mut p = Player::new(&a, true, 1000);
    assert_eq!(p.set_playing(&a, true, 1003), PlayChange::Nothing);
    assert_eq!(p.set_playing(&a, false, 1004), PlayChange::Paused(4));
    assert_eq!(p.set_playing(&a, false, 5000), PlayChange::Nothing);
    assert_eq!(p.get_elapsed(&a, 9000), 4);
    assert_eq!(p.set_playing(&a, true, 9000), PlayChange::Started(6));
    assert_eq!(p.get_elapsed(&a, 9000), 4);
}

#[test]
fn seeking() {
    let a = animation(&[10, 20, 30]);
    let mut p = Player::new(&a, false, 1000);
    assert_eq!(p.seek_animation(&a, 10, 1000), None);
    assert_eq!(p.index, 1);
    p.seek_animation(&a, 29, 1000);
    assert_eq!((p.index, p.get_elapsed(&a, 1000)), (1, 29));
    p.seek_animation(&a, 30, 1000);
    assert_eq!(p.index, 2);
    p.seek_animation(&a, 0, 1000);
    assert_eq!(p.index, 0);
    p.set_playing(&a, true, 2000);
    assert_eq!(p.seek_animation(&a, 15, 2000), Some(15));
}

#[test]
fn renderables_match_pages() {
    let r: Renderable<u8> = Renderable::new(&page(1), AllocatedTextures::Nothing, true, 0);
    assert!(r.matches(&page(1)));
    assert!(!r.matches(&page(2)));
    let a = Displayable::Animation(animation(&[1]));
    let r: Renderable<u8> = Renderable::new(&a, AllocatedTextures::Nothing, true, 0);
    assert!(r.matches(&a) && !r.matches(&page(1)));
    let v = Displayable::Video("/v.webm".to_string());
    let r: Renderable<u8> = Renderable::new(&v, AllocatedTextures::Nothing, true, 0);
    assert!(matches!(r, Renderable::Video(p) if p == "/v.webm"));
}

#[test]
fn next_pages_are_loaded_in_advance() {
    let mut p: Preloadable<u8> = Preloadable::new(&Some(page(1)), AllocatedTextures::Nothing);
    assert!(p.needs_preload() && p.matches(&page(1)));
    p.preload();
    assert!(!p.needs_preload());
    p.drop_textures();
    assert!(p.needs_preload());
    let mut r = p.take_renderable();
    assert!(matches!(p, Preloadable::Nothing));
    if let Renderable::Image(i) = &mut r {
        i.take_whole();
        i.set_whole(1);
    }
    assert!(!Preloadable::from_renderable(r).needs_preload());
    let n: Preloadable<u8> = Preloadable::new(&None, AllocatedTextures::Nothing);
    assert!(matches!(n, Preloadable::Nothing));
}

fn renderer() -> Renderer<u8> {
    Renderer { displayed: DisplayedContent::Single(Renderable::Nothing), next_page: Preloadable::Nothing }
}

#[test]
fn the_next_page_is_taken_over() {
    let mut r = renderer();
    r.update_displayed(&GuiContent::Single { current: page(1), preload: Some(page(2)) }, true, 0);
    match &mut r.next_page {
        Preloadable::Pending(i) => {
            i.take_whole();
            i.set_whole(42);
        }
        other => panic!("{other:?}"),
    }
    r.next_page.preload();
    r.update_displayed(&GuiContent::Single { current: page(2), preload: Some(page(3)) }, true, 0);
    match &r.displayed {
        DisplayedContent::Single(Renderable::Image(i)) => {
            assert!(matches!(i.texture, TextureLayout::Single(SingleTexture::Current(42))));
        }
        other => panic!("{other:?}"),
    }
    assert!(r.next_page.matches(&page(3)));
}

#[test]
fn pages_of_a_strip_are_kept() {
    let strip = |v: Vec<Displayable>| GuiContent::Strip {
        prev: OffscreenContent::Nothing,
        current_index: 0,
        visible: v,
        next: OffscreenContent::Nothing,
    };
    let mut r = renderer();
    r.update_displayed(&strip(vec![page(1), page(2)]), true, 0);
    match &mut r.displayed {
        DisplayedContent::Multiple(v) => match &mut v[1] {
            Renderable::Image(i) => {
                i.take_whole();
                i.set_whole(5);
            }
            other => panic!("{other:?}"),
        },
        other => panic!("{other:?}"),
    }
    r.update_displayed(&strip(vec![page(2), page(3)]), true, 0);
    match &r.displayed {
        DisplayedContent::Multiple(v) => {
            assert_eq!(v.len(), 2);
            assert!(v[0].matches(&page(2)) && v[1].matches(&page(3)));
            match &v[0] {
                Renderable::Image(i) => {
                    assert!(matches!(i.texture, TextureLayout::Single(SingleTexture::Current(5))));
                }
                other => panic!("{other:?}"),
            }
        }
        other => panic!("{other:?}"),
    }
}

#[test]
fn progress_of_what_moves() {
    let mut r = renderer();
    assert_eq!(r.displayed.progress(), ProgressKind::Hidden);
    let a = Displayable::Animation(animation(&[10, 20]));
    r.update_displayed(&GuiContent::Single { current: a, preload: None }, true, 0);
    assert_eq!(r.displayed.progress(), ProgressKind::Animation);
    assert_eq!(r.displayed.seek_animation(10, 0), Some(20));
    r.displayed.set_playing(false, 0);
    assert_eq!(r.displayed.seek_animation(0, 0), None);
    let v = Displayable::Video("/v.webm".to_string());
    r.update_displayed(&GuiContent::Single { current: v, preload: None }, true, 0);
    assert_eq!(r.displayed.progress(), ProgressKind::Video);
}

#[test]
fn letting_go_of_textures() {
    let mut r = renderer();
    r.update_displayed(&GuiContent::Single { current: page(1), preload: Some(page(2)) }, true, 0);
    if let DisplayedContent::Single(Renderable::Image(i)) = &mut r.displayed {
        i.take_whole();
        i.set_whole(1);
    }
    r.drop_textures();
    match &r.displayed {
        DisplayedContent::Single(Renderable::Image(i)) => assert!(i.needs_preload()),
        other => panic!("{other:?}"),
    }
    assert!(r.next_page.needs_preload());
    assert_eq!(TILE_SIZE, 512);
}

#[test]
fn frames_are_uploaded_in_advance() {
    let a = Displayable::Animation(animation(&[10, 20, 30]));
    let mut r: Renderable<u8> = Renderable::new(&a, AllocatedTextures::Single(9), false, 0);
    let at = placed((0, 0), (0, 0));
    let plan = r.draw(&at);
    assert!(matches!(plan, DrawPlan::Whole(true)));
    assert!(matches!(r.finish_draw(plan), PreloadTask::AnimationFrame(1)));
    match &mut r {
        Renderable::Animation(a) => {
            a.preload_textures = AllocatedTextures::Single(5);
            a.attach_to(1);
            let s = &a.textures.deduped[1];
            assert!(matches!(s.texture, TextureLayout::Single(SingleTexture::Allocated(5))));
            assert!(matches!(a.preload_textures, AllocatedTextures::Nothing));
        }
        other => panic!("{other:?}"),
    }
}

#[test]
fn images_that_are_drawn_ask_for_nothing() {
    let mut r: Renderable<u8> = Renderable::new(&page(1), AllocatedTextures::Nothing, true, 0);
    let plan = r.draw(&placed((0, 9), (0, 9)));
    assert!(matches!(plan, DrawPlan::Whole(true)));
    assert!(matches!(r.finish_draw(plan), PreloadTask::Nothing));
}

#[test]
fn tiles_are_visited_one_after_the_other() {
    let mut s: StaticImage<u8> = StaticImage::new(with_res(8193, 1, 1), AllocatedTextures::Nothing);
    s.set_tile(1, 0, 7);
    s.set_tile(3, 0, 8);
    let mut at = placed((-10, 8182), (0, 0));
    // The first three and the last but one are seen, the others are far away.
    at.tile_columns = vec![(5000, 5511); 17];
    at.tile_columns[0] = (0, 511);
    at.tile_columns[2] = (0, 511);
    at.tile_columns[3] = (0, 511);
    at.tile_columns[15] = (0, 511);
    match s.draw(&at) {
        DrawPlan::Tiles(draws, preloads) => {
            let drawn: Vec<_> = draws.iter().map(|d| (d.x, d.y, d.upload, d.texture)).collect();
            // A texture is used again only by tiles behind the one that let go of it.
            assert_eq!(
                drawn,
                vec![
                    (0, 0, true, None),
                    (2, 0, true, Some(7)),
                    (3, 0, false, None),
                    (15, 0, true, None)
                ]
            );
            assert!(preloads.is_empty());
        }
        other => panic!("{other:?}"),
    }
    assert_eq!(s.take_tile(), None);
    s.set_tile(0, 0, 9);
    s.set_tile(2, 0, 7);
    at.tile_columns[2] = (5000, 5511);
    match s.draw(&at) {
        DrawPlan::Tiles(draws, _) => {
            assert_eq!(draws.len(), 3);
            assert_eq!((draws[2].x, draws[2].texture), (15, Some(7)));
        }
        other => panic!("{other:?}"),
    }
}

#[test]
fn pausing_tells_where_animations_are() {
    let a = Displayable::Animation(animation(&[10, 20, 30]));
    let new = |d: &Displayable| Renderable::new(d, AllocatedTextures::Nothing, true, 1000);
    let mut d: DisplayedContent<u8> = DisplayedContent::Multiple(vec![new(&a), new(&page(1))]);
    assert_eq!(d.set_playing(false, 1004), vec![PlayChange::Paused(4), PlayChange::Nothing]);
    assert_eq!(d.set_playing(false, 1005), vec![PlayChange::Nothing, PlayChange::Nothing]);
}

#[test]
fn what_is_loaded_in_advance() {
    let mut r = renderer();
    assert!(!r.wants_preload(&Vec::new()));
    assert!(!r.wants_preload(&vec![PreloadTask::Nothing, PreloadTask::Nothing]));
    assert!(r.wants_preload(&vec![PreloadTask::Nothing, PreloadTask::WholeImage]));
    r.next_page = Preloadable::Pending(StaticImage::new(with_res(1, 1, 1), AllocatedTextures::Nothing));
    assert!(r.wants_preload(&Vec::new()));
}
