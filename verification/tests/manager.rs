use aw_man::com::action::ManagerAction;
use aw_man::com::content::{GuiContent, GuiState, OffscreenContent};
use aw_man::com::direction::Direction;
use aw_man::com::mode::{DisplayMode, Fit, Modes};
use aw_man::com::res::Res;
use aw_man::com::toggle::Toggle;
use aw_man::manager::actions::MoveStep;
use aw_man::manager::archive::{
    extracted_file, keep_pages, open_as, open_set_as, uses_unrar, Archive, Kind, OpenAs, OpenSetAs,
};
use aw_man::manager::contents::{change_preload, dim, PreloadRangeChange};
use aw_man::manager::control::{Awaited, Followup, LoopEvent, LoopStep, Ready};
use aw_man::manager::current::CurrentIndices;
use aw_man::manager::delay::DownscaleDelay;
use aw_man::manager::find_next::{for_path, SortKeyCache};
use aw_man::manager::indices::{Indices, PageIndices, AI, PI};
use aw_man::manager::manager::{Manager, ManagerWork, Settings};
use aw_man::manager::opening::{open_files, OpenFiles};
use aw_man::manager::page::page::{PageState, PageStep};
use aw_man::manager::page::scanned::Upscales;
use aw_man::manager::work::Completion;
use aw_man::pools::loading::{ImageOrRes, ScanResult};

fn res(w: u32, h: u32) -> Res {
    Res { w, h }
}

fn strings(v: &[&str]) -> Vec<String> {
    v.iter().map(|s| s.to_string()).collect()
}

fn at(a: usize, p: usize) -> PageIndices {
    PageIndices { indices: Indices::Normal(AI(a), PI(p)) }
}

fn empty(a: usize) -> PageIndices {
    PageIndices { indices: Indices::Empty(AI(a)) }
}

fn settings() -> Settings {
    Settings {
        preload_ahead: 2,
        preload_behind: 1,
        prescale: 0,
        max_strip_preload_ahead: Some(10),
        scroll_amount: 300,
        mode_change_command: Some("mode".to_string()),
        archive_change_command: Some("archive".to_string()),
        page_change_command: Some("page".to_string()),
        page_change_debounce: None,
        idle_command: None,
        unidle_command: None,
    }
}

fn directory(name: &str, pages: usize, id: u16) -> Archive {
    let listing = (1..=pages).map(|i| format!("{i}.png")).collect();
    Archive::new_directory(format!("/m/{name}"), listing, &Vec::new(), id)
}

fn chapter(name: &str, pages: usize, id: u16) -> Archive {
    let entries = (1..=pages).map(|i| format!("{i}.png")).collect();
    Archive::new_compressed(format!("/m/{name}.zip"), entries, &Vec::new(), "/tmp/t", id)
}

fn reader(pages: usize, page: usize) -> Manager {
    Manager::new(&settings(), chapter("a", pages, 0), Some(page), manga(), GuiState::default(), false)
}

fn manager(pages: usize, page: usize, modes: Modes) -> Manager {
    Manager::new(&settings(), directory("a", pages, 0), Some(page), modes, GuiState::default(), false)
}

fn manga() -> Modes {
    Modes { manga: true, ..Modes::default() }
}

fn goes_to(m: &mut Manager, d: Direction, n: usize) -> Option<PageIndices> {
    let target = m.move_target(d, n)?;
    m.set_current_page(&settings(), target);
    m.finish_move(&settings());
    Some(m.current.get())
}

#[test]
fn places_of_pages() {
    let counts = [3, 0, 2];
    assert_eq!(at(0, 0).forwards(2, &counts), Some(at(0, 2)));
    assert_eq!(at(0, 0).forwards(3, &counts), Some(empty(1)));
    assert_eq!(at(0, 0).forwards(4, &counts), Some(at(2, 0)));
    assert_eq!(at(0, 0).forwards(5, &counts), Some(at(2, 1)));
    assert_eq!(at(0, 0).forwards(6, &counts), None);
    assert_eq!(at(2, 1).backwards(1, &counts), Some(at(2, 0)));
    assert_eq!(at(2, 1).backwards(2, &counts), Some(empty(1)));
    assert_eq!(at(2, 1).backwards(5, &counts), Some(at(0, 0)));
    assert_eq!(at(2, 1).backwards(6, &counts), None);
    assert!(at(0, 2).before(&empty(1)) && empty(1).before(&at(2, 0)));
    assert!(!at(2, 0).before(&at(2, 0)));
}

#[test]
fn there_and_back_again() {
    let counts = [3, 0, 2];
    for n in 0..6 {
        if let Some(i) = at(0, 1).forwards(n, &counts) {
            assert_eq!(i.backwards(n, &counts), Some(at(0, 1)));
        }
    }
}

#[test]
fn clamped_moves() {
    let counts = [3, 2];
    assert_eq!(at(0, 1).move_clamped_in_archive(Direction::Forwards, 9, &counts), at(0, 2));
    assert_eq!(at(1, 1).move_clamped_in_archive(Direction::Backwards, 9, &counts), at(1, 0));
    assert_eq!(at(0, 1).move_clamped_in_archive(Direction::Absolute, 0, &counts), at(0, 0));
    assert_eq!(at(0, 1).move_clamped(Direction::Forwards, 9, &counts), at(1, 1));
    assert_eq!(at(1, 1).move_clamped(Direction::Backwards, 9, &counts), at(0, 0));
    assert_eq!(PageIndices::first(&counts), at(0, 0));
    assert_eq!(PageIndices::last(&counts), at(1, 1));
    assert_eq!(at(0, 1).try_move_pages(Direction::Forwards, 9, &counts), None);
}

#[test]
fn directories_are_sorted() {
    let listing = strings(&["10.png", "2.png", "notes.txt", "1.png"]);
    let a = Archive::new_directory("/m/dir".to_string(), listing, &Vec::new(), 4);
    let names: Vec<&str> = a.pages.iter().map(|p| p.name.as_str()).collect();
    assert_eq!(names, vec!["1.png", "2.png", "10.png"]);
    assert_eq!((a.name.as_str(), a.id), ("dir", 4));
    assert_eq!(a.pages[2].get_absolute_file_path(), "/m/dir/10.png");
    assert_eq!(a.find_page("2.png"), Some(1));
    assert_eq!(a.find_page("3.png"), Some(0));
}

#[test]
fn compressed_archives_are_sorted() {
    let entries = strings(&["x/b/2.png", "x/a/10.png", "x/a/9.png", "x/readme"]);
    let a = Archive::new_compressed("/m/c.zip".to_string(), entries, &Vec::new(), "/tmp/t", 0);
    let names: Vec<&str> = a.pages.iter().map(|p| p.name.as_str()).collect();
    assert_eq!(names, vec!["a/9.png", "a/10.png", "b/2.png"]);
    assert_eq!(a.pages[1].rel_path, "x/a/10.png");
    assert_eq!(a.pages[1].get_absolute_file_path(), "/tmp/t/1.png");
    assert!(matches!(a.kind, Kind::Compressed(false)));
    assert_eq!(extracted_file("x/a/10.jpeg", 7), "7.jpeg");
}

#[test]
fn file_sets_keep_their_order() {
    let paths = strings(&["/m/b.png", "/m/a.png", "/m/x/c.png"]);
    let a = Archive::new_fileset(paths, None, 0);
    let names: Vec<&str> = a.pages.iter().map(|p| p.name.as_str()).collect();
    assert_eq!(names, vec!["b.png", "a.png", "x/c.png"]);
    assert_eq!((a.path.as_str(), a.name.as_str()), ("/m", "files in /m"));
    assert!(!a.allow_multiple_archives());
}

#[test]
fn broken_archives() {
    let a = Archive::new_broken("/m/c.zip".to_string(), "bad".to_string(), 1);
    assert_eq!((a.name.as_str(), a.page_count(), a.first_page()), ("c.zip", 0, None));
}

#[test]
fn what_paths_are_opened_as() {
    let none = Vec::new();
    assert!(matches!(open_as("/m", true, &none), OpenAs::Directory));
    assert!(matches!(open_as("/m/a.zip", false, &none), OpenAs::Compressed));
    assert!(matches!(
        open_as("/m/a.png", false, &none),
        OpenAs::PageOf(d, f) if d == "/m" && f == "a.png"
    ));
    assert_eq!(open_set_as(&none, false, &none), OpenSetAs::Nothing);
    assert_eq!(open_set_as(&strings(&["/a.zip", "/b.png"]), false, &none), OpenSetAs::FirstAlone);
    assert_eq!(open_set_as(&strings(&["/a.png", "/b.png"]), false, &none), OpenSetAs::FileSet);
    assert_eq!(open_set_as(&strings(&["/a.png"]), true, &none), OpenSetAs::FirstAlone);
    assert!(uses_unrar("/a.cbr", true, true));
    assert!(!uses_unrar("/a.cbr", false, true) && !uses_unrar("/a.zip", true, true));
    assert_eq!(keep_pages(strings(&["a.png", "b", "c.gif"]), &none), strings(&["a.png", "c.gif"]));
}

#[test]
fn what_chosen_files_are_opened_as() {
    let none = Vec::new();
    assert_eq!(open_files(&strings(&["/a.png", "/b.zip"]), &none), OpenFiles::FileSet);
    assert_eq!(open_files(&strings(&["/a.zip"]), &none), OpenFiles::Archive);
    let several = open_files(&strings(&["/a.zip", "/b.zip"]), &none);
    assert_eq!(several, OpenFiles::Unsupported);
    assert!(several.error().is_some());
    assert_eq!(OpenFiles::FileSet.error(), None);
}

#[test]
fn moving_in_an_archive() {
    let mut m = manager(10, 0, Modes::default());
    assert_eq!(goes_to(&mut m, Direction::Forwards, 3), Some(at(0, 3)));
    assert_eq!(goes_to(&mut m, Direction::Backwards, 2), Some(at(0, 1)));
    assert_eq!(goes_to(&mut m, Direction::Absolute, 7), Some(at(0, 7)));
    assert_eq!(goes_to(&mut m, Direction::Absolute, usize::MAX), Some(at(0, 9)));
}

#[test]
fn jumps_end_at_the_page() {
    for p in 0..10 {
        let m = manager(10, 4, Modes::default());
        let t = m.move_target(Direction::Absolute, p).unwrap();
        assert_eq!(t.get(), at(0, p));
    }
}

#[test]
fn moving_between_archives_in_manga_mode() {
    let s = settings();
    assert_eq!(manager(3, 2, manga()).archive_to_extend(Direction::Forwards), None);
    let mut m = reader(3, 2);
    assert!(m.wants_archive(&s, Direction::Forwards));
    assert_eq!(m.archive_to_extend(Direction::Forwards), Some("/m/a.zip".to_string()));
    m.add_archive(&s, chapter("b", 5, 1), Direction::Forwards);
    assert!(!m.wants_archive(&s, Direction::Forwards));
    assert_eq!(goes_to(&mut m, Direction::Forwards, 1), Some(at(1, 0)));
    assert_eq!(goes_to(&mut m, Direction::Backwards, 1), Some(at(0, 2)));
}

#[test]
fn archives_before_the_first_one() {
    let s = settings();
    let mut m = reader(3, 0);
    assert!(m.wants_archive(&s, Direction::Backwards));
    m.add_archive(&s, chapter("b", 5, 1), Direction::Backwards);
    assert_eq!(m.current.get(), at(1, 0));
    assert_eq!(goes_to(&mut m, Direction::Backwards, 1), Some(at(0, 4)));
}

#[test]
fn unused_archives_are_closed() {
    let s = settings();
    let mut m = reader(3, 2);
    m.add_archive(&s, chapter("b", 9, 1), Direction::Forwards);
    let t = m.move_target(Direction::Forwards, 6).unwrap();
    m.set_current_page(&s, t);
    let closed = m.finish_move(&s);
    assert_eq!(closed.len(), 1);
    assert_eq!(closed[0].name, "a.zip");
    assert_eq!(m.current.get(), at(0, 5));
    assert_eq!(m.archives.len(), 1);
}

#[test]
fn work_is_done_nearest_first() {
    let s = settings();
    let mut m = manager(10, 4, Modes::default());
    m.find_next_work(&s);
    assert!(m.has_work(ManagerWork::Current));
    assert_eq!(m.scan, Some(at(0, 4)));
    assert_eq!(m.get_range(&s, ManagerWork::Scan), (1, 2));
    assert_eq!(m.upscale, None);
}

#[test]
fn scanned_pages_need_no_more_scanning() {
    let s = settings();
    let u = Upscales { temp_dir: "/t".to_string(), target: res(0, 0), minimum: None };
    let mut m = manager(10, 4, Modes::default());
    let (i, work) = m.get_work_for_type(ManagerWork::Scan, false);
    let i = i.unwrap();
    assert_eq!(i, at(0, 4));
    let (jump, step) = m.archives[0].do_work(PI(4), &work);
    assert_eq!((jump, step), (false, PageStep::StartScanning(true)));
    m.archives[0].pages[4].scanning_started();
    m.handle_completion(&s, Completion::StartScan, i);
    m.archives[0].pages[4]
        .scanning_finished(ScanResult::Image(ImageOrRes::Res(res(10, 10))), &u);
    m.find_next_work(&s);
    assert_eq!(m.scan, Some(at(0, 5)));
}

#[test]
fn extraction_is_started_once() {
    let entries = strings(&["1.png", "2.png"]);
    let a = Archive::new_compressed("/m/c.zip".to_string(), entries, &Vec::new(), "/tmp/t", 0);
    let mut m = Manager::new(&settings(), a, Some(0), Modes::default(), GuiState::default(), false);
    assert_eq!(m.start_extractions(), vec![0]);
    assert!(m.archives[0].must_cancel_extraction());
    assert!(m.start_extractions().is_empty());
}

#[test]
fn modes_change() {
    let s = settings();
    let mut m = manager(10, 4, Modes::default());
    let (f, _) = m.handle_action(&s, &ManagerAction::Manga(Toggle::On), 0);
    assert_eq!(f, Followup::OpenArchivesForManga);
    assert!(m.modes.manga);
    let (f, _) = m.handle_action(&s, &ManagerAction::Manga(Toggle::On), 0);
    assert_eq!(f, Followup::Nothing);
    m.handle_action(&s, &ManagerAction::FitStrategy(Fit::Width), 0);
    assert_eq!(m.modes.fit, Fit::Width);
    m.handle_action(&s, &ManagerAction::Display(DisplayMode::DualPage), 0);
    assert!(matches!(m.current, CurrentIndices::Dual(_)));
    m.handle_action(&s, &ManagerAction::Display(DisplayMode::Single), 0);
    assert!(matches!(m.current, CurrentIndices::Single(_)));
    let (f, _) = m.handle_action(&s, &ManagerAction::Status, 0);
    assert_eq!(f, Followup::Status);
    assert!(!f.interactive() && Followup::Move.interactive());
}

#[test]
fn the_window_is_told_of_changes() {
    let s = settings();
    let mut m = manager(10, 4, Modes::default());
    m.handle_action(&s, &ManagerAction::Resolution(res(800, 600)), 0);
    let u = m.maybe_send_gui_state(&s, 0);
    let (state, _) = u.state.unwrap();
    assert_eq!((state.page_num, state.archive_len, state.archive_name.as_str()), (5, 10, "a"));
    assert_eq!(state.target_res.res, res(800, 600));
    assert!(matches!(state.content, GuiContent::Single { .. }));
    assert!(m.maybe_send_gui_state(&s, 0).state.is_none());
}

#[test]
fn programs_are_told_of_the_page() {
    let m = manager(10, 4, manga());
    let env = m.get_env(Vec::new(), 99, None, Some("/run/s.sock".to_string()));
    let get = |k: &str| env.iter().find(|e| e.0 == k).map(|e| e.1.as_str());
    assert_eq!(get("AWMAN_ARCHIVE"), Some("/m/a"));
    assert_eq!(get("AWMAN_ARCHIVE_TYPE"), Some("directory"));
    assert_eq!(get("AWMAN_PAGE_NUMBER"), Some("5"));
    assert_eq!(get("AWMAN_PAGE_COUNT"), Some("10"));
    assert_eq!(get("AWMAN_CURRENT_FILE"), Some("/m/a/5.png"));
    assert_eq!(get("AWMAN_RELATIVE_FILE_PATH"), Some("5.png"));
    assert_eq!(get("AWMAN_DISPLAY_MODE"), Some("single"));
    assert_eq!(get("AWMAN_FIT_MODE"), Some("container"));
    assert_eq!(get("AWMAN_MANGA_MODE"), Some("true"));
    assert_eq!(get("AWMAN_UPSCALING_ENABLED"), Some("false"));
    assert_eq!(get("AWMAN_PID"), Some("99"));
    assert_eq!(get("AWMAN_SOCKET"), Some("/run/s.sock"));
    assert_eq!(get("AWMAN_WINDOW"), None);
}

#[test]
fn idle_pages_are_unloaded_but_not_the_current_one() {
    let s = settings();
    let u = Upscales { temp_dir: "/t".to_string(), target: res(0, 0), minimum: None };
    let mut m = manager(10, 4, Modes::default());
    for p in 3..7 {
        m.archives[0].pages[p].scanning_started();
        m.archives[0].pages[p]
            .scanning_finished(ScanResult::Image(ImageOrRes::Res(res(10, 10))), &u);
    }
    let unloaded = m.idle_unload(&s);
    assert!(unloaded.iter().all(|(i, _)| *i != at(0, 4)));
    assert!(matches!(m.archives[0].pages[4].state, PageState::Scanned(_)));
}

#[test]
fn pages_of_another_archive_replace_all() {
    let s = settings();
    let mut m = manager(10, 4, Modes::default());
    let closed = m.replace_archives(&s, directory("z", 2, 1), Some(1));
    assert_eq!(closed.len(), 1);
    assert_eq!((m.current.get(), m.archives[0].name.as_str()), (at(0, 1), "z"));
}

#[test]
fn strips_load_more_ahead() {
    assert_eq!(dim(DisplayMode::HorizontalStrip, res(3, 4)), 3);
    assert_eq!(dim(DisplayMode::VerticalStrip, res(3, 4)), 4);
    let s = settings();
    let mut m = manager(40, 4, Modes::default());
    m.grow_preload(&s, 3);
    assert_eq!(m.preload_ahead, 5);
    m.shrink_preload(&s, 2);
    assert_eq!(m.preload_ahead, 3);
    assert!(matches!(
        change_preload(&s, 2, 3, false, OffscreenContent::Unknown),
        PreloadRangeChange::More(_)
    ));
    assert!(matches!(
        change_preload(&s, 2, 2, true, OffscreenContent::Nothing),
        PreloadRangeChange::NoChange
    ));
}

#[test]
fn rapid_changes_of_size_delay_scaling() {
    let mut d = DownscaleDelay::Cleared;
    assert!(!d.delay_downscale(0));
    d.mark_resize(1000);
    assert!(!d.delay_downscale(1001));
    d.mark_resize(1010);
    assert!(d.delay_downscale(1011));
    let end = d.wait_until();
    assert!(!d.delay_downscale(end));
    d.clear();
    assert!(!d.delay_downscale(1011));
}

fn popped(mut c: SortKeyCache, forwards: bool) -> Vec<String> {
    let mut v = Vec::new();
    while let Some(p) = c.pop(forwards) {
        v.push(p);
    }
    v
}

#[test]
fn archives_follow_in_natural_order() {
    let listing = strings(&["/m/c10.zip", "/m/c2.zip", "/m/c1.zip", "/m/notes.txt", "/m/c3.zip"]);
    assert_eq!(
        popped(for_path("/m/c2.zip", &listing, true), true),
        strings(&["/m/c3.zip", "/m/c10.zip"])
    );
    assert_eq!(popped(for_path("/m/c3.zip", &listing, false), false), strings(&["/m/c2.zip", "/m/c1.zip"]));
    assert!(popped(for_path("/m/c10.zip", &listing, true), true).is_empty());
}

#[test]
fn chapters_follow_by_number() {
    let listing = strings(&[
        "/m/Vol. 1 Ch. 10 - abc.zip",
        "/m/Ch. 9.5 Extra - xyz.zip",
        "/m/Vol. 2 Ch. 11 Name - q.zip",
    ]);
    assert_eq!(
        popped(for_path("/m/Ch. 9.5 Extra - xyz.zip", &listing, true), true),
        strings(&["/m/Vol. 1 Ch. 10 - abc.zip", "/m/Vol. 2 Ch. 11 Name - q.zip"])
    );
}

#[test]
fn moves_beyond_all_archives_end_at_the_edge() {
    let m = reader(3, 1);
    assert!(m.move_target(Direction::Forwards, 10).is_none());
    assert_eq!(m.move_target_at_edge(Direction::Forwards, 10).get(), at(0, 2));
    assert_eq!(m.move_target_at_edge(Direction::Backwards, 10).get(), at(0, 0));
}

#[test]
fn neighbouring_archives() {
    let mut m = reader(2, 1);
    assert!(m.next_archive_target().is_none() && m.previous_archive_target().is_none());
    m.add_archive(&settings(), chapter("b", 0, 1), Direction::Forwards);
    m.add_archive(&settings(), chapter("c", 2, 2), Direction::Backwards);
    assert_eq!(m.current.get(), at(1, 1));
    assert_eq!(m.next_archive_target().map(|c| c.get()), Some(empty(2)));
    assert_eq!(m.previous_archive_target().map(|c| c.get()), Some(at(0, 0)));
}

#[test]
fn slow_work_is_told_of_once() {
    let mut m = reader(1, 0);
    assert!(m.start_blocking_work());
    assert!(!m.start_blocking_work());
}

#[test]
fn archives_are_opened_after_the_current_page() {
    let m = reader(1, 0);
    assert_eq!(m.pending_open(true, true), (true, false));
    assert_eq!(m.pending_open(true, false), (false, true));
    assert_eq!(m.pending_open(false, false), (false, false));
    let m = manager(1, 0, Modes::default());
    assert_eq!(m.pending_open(true, false), (false, false));
}

#[test]
fn pages_are_listed() {
    let listed = directory("a", 2, 0).list_pages();
    assert_eq!(listed.len(), 2);
    assert_eq!((listed[1].path.as_str(), listed[1].index), ("2.png", 2));
    assert_eq!(listed[1].abs_path, Some("/m/a/2.png".to_string()));
    assert_eq!(chapter("a", 1, 0).list_pages()[0].abs_path, None);
}

#[test]
fn pairs_are_looked_at_again_in_manga_mode() {
    let dual = Modes { display: DisplayMode::DualPage, ..Modes::default() };
    let mut m = manager(2, 1, dual);
    m.manga_changed(&settings());
    assert!(matches!(&m.current, CurrentIndices::Dual(p) if p.count() == 1));
    assert_eq!(m.current.get(), at(0, 1));
}

fn nothing_ready() -> Ready {
    Ready {
        current: false,
        finalize: false,
        downscale: false,
        load: false,
        upscale: false,
        scan: false,
        delayed: false,
    }
}

#[test]
fn work_is_waited_for_in_its_order() {
    let all = Ready {
        current: true,
        finalize: true,
        downscale: true,
        load: true,
        upscale: true,
        scan: true,
        delayed: true,
    };
    assert_eq!(
        all.awaits(false, true, true),
        vec![
            Awaited::Closing,
            Awaited::Action,
            Awaited::Work(ManagerWork::Current),
            Awaited::Work(ManagerWork::Finalize),
            Awaited::Work(ManagerWork::Downscale),
            Awaited::Work(ManagerWork::Load),
            Awaited::Work(ManagerWork::Upscale),
            Awaited::Work(ManagerWork::Scan),
            Awaited::Delay,
            Awaited::PageChange,
        ]
    );
    let none = nothing_ready();
    assert_eq!(
        none.awaits(false, false, true),
        vec![Awaited::Closing, Awaited::Action, Awaited::Idling]
    );
    assert_eq!(none.awaits(true, false, true), vec![Awaited::Closing, Awaited::Action]);
    assert_eq!(none.awaits(false, false, false), vec![Awaited::Closing, Awaited::Action]);
}

#[test]
fn idling_begins_and_ends() {
    let none = nothing_ready();
    let go_on = |unidle: bool| LoopStep::GoOn { unidle, clear_delay: false };
    assert_eq!(none.step(false, true, LoopEvent::TimedOut), (true, LoopStep::Idle));
    assert_eq!(none.step(true, true, LoopEvent::TimedOut), (true, LoopStep::Wait));
    assert_eq!(none.step(false, false, LoopEvent::TimedOut), (false, LoopStep::Wait));
    let busy = Ready { load: true, ..none };
    assert_eq!(busy.step(false, true, LoopEvent::TimedOut), (false, LoopStep::Wait));
    let quiet = LoopEvent::Action { interactive: false };
    assert_eq!(none.step(true, true, quiet), (true, LoopStep::Wait));
    let loud = LoopEvent::Action { interactive: true };
    assert_eq!(none.step(true, true, loud), (false, go_on(true)));
    assert_eq!(none.step(false, true, loud), (false, go_on(false)));
    assert_eq!(busy.step(false, true, LoopEvent::Worked), (false, go_on(false)));
    assert_eq!(none.step(true, true, LoopEvent::PageChangeDue), (true, LoopStep::PageChanged));
    let delayed = Ready { delayed: true, ..none };
    assert_eq!(
        delayed.step(false, true, LoopEvent::DelayOver),
        (false, LoopStep::GoOn { unidle: false, clear_delay: true })
    );
    assert_eq!(none.step(true, true, LoopEvent::Closing), (true, LoopStep::Leave));
    assert_eq!(none.step(false, true, LoopEvent::Disconnected), (false, LoopStep::Fail));
}

fn gone_to(s: MoveStep) -> Option<PageIndices> {
    match s {
        MoveStep::GoTo(c) => Some(c.get()),
        MoveStep::Open | MoveStep::Stay => None,
    }
}

#[test]
fn moves_go_on_as_long_as_there_are_archives() {
    let m = manager(3, 1, manga());
    assert_eq!(gone_to(m.move_step(Direction::Forwards, 1, None)), Some(at(0, 2)));
    assert!(matches!(m.move_step(Direction::Forwards, 2, None), MoveStep::Open));
    assert!(matches!(m.move_step(Direction::Forwards, 2, Some(true)), MoveStep::Open));
    assert_eq!(gone_to(m.move_step(Direction::Forwards, 2, Some(false))), Some(at(0, 2)));
    assert_eq!(gone_to(m.move_step(Direction::Backwards, 9, Some(false))), Some(at(0, 0)));
    let plain = reader(3, 1);
    assert!(gone_to(plain.move_step(Direction::Absolute, 9, None)).is_some());
}

#[test]
fn moves_to_archives_open_one_at_most() {
    let mut m = manager(2, 1, manga());
    assert!(matches!(m.archive_step(Direction::Forwards, None), MoveStep::Open));
    assert!(matches!(m.archive_step(Direction::Forwards, Some(false)), MoveStep::Stay));
    m.add_archive(&settings(), chapter("b", 2, 1), Direction::Forwards);
    assert_eq!(gone_to(m.archive_step(Direction::Forwards, Some(true))), Some(at(1, 0)));
    assert!(matches!(m.archive_step(Direction::Backwards, None), MoveStep::Open));
}

#[test]
fn pages_whose_names_are_no_text() {
    let name = "\u{10ffff}1.png".to_string();
    let a = Archive::new_directory("/d".to_string(), vec![name.clone()], &Vec::new(), 0);
    assert_eq!(a.pages[0].rel_path, name);
    assert_eq!(a.pages[0].name, "\u{fffd}1.png");
    assert_eq!(a.list_pages()[0].path, "\u{fffd}1.png");
    let set = Archive::new_fileset(vec!["/\u{10ffff}/1.png".to_string()], None, 0);
    assert_eq!((set.path.as_str(), set.name.as_str()), ("/\u{10ffff}", "files in /\u{fffd}"));
}

#[test]
fn work_keeps_what_was_loaded() {
    let mut m = manager(3, 0, Modes::default());
    let (_, work) = m.get_work_for_type(ManagerWork::Scan, false);
    let (jump, step) = m.archives[0].do_work(PI(0), &work);
    assert_eq!((jump, step), (false, PageStep::StartScanning(true)));
    assert!(matches!(m.archives[0].pages[0].state, PageState::Unscanned));
    m.archives[0].pages[0].scanning_started();
    assert_eq!(m.archives[0].do_work(PI(0), &work), (false, PageStep::AwaitScanning));
    assert!(matches!(m.archives[0].pages[0].state, PageState::Scanning(_)));
}
