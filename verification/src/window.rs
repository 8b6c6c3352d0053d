//! The slideshow window: its playlist, the textures that were loaded for it,
//! the images that hold the viewer back, and what a frame does with the keys
//! that were pressed.

use crate::path_map::PathMap;
use crate::playlist::{lemma_full_cycle, lemma_step, stepped_forward, Playlist, PlaylistView};
use crate::sorting::{cover_of, display_order};
use vstd::prelude::*;
use vstd::string::StringExecFns;

verus! {

/// The handle of a texture that was uploaded for drawing.
#[derive(Clone, Copy, Debug, PartialEq, Eq, Structural)]
pub struct TextureHandle {
    pub id: u64,
}

/// What became of one image file: its path, and the texture that was made
/// of it or the reason why none was.
#[derive(Debug)]
pub struct ImageLoad {
    pub path: String,
    pub outcome: Result<TextureHandle, String>,
}

/// An image that could not be loaded.
#[derive(Clone, Debug, PartialEq, Eq)]
pub struct LoadError {
    pub path: String,
    pub reason: String,
}

impl LoadError {
    /// The line that reports the failure.
    pub fn message(&self) -> (text: String)
        ensures
            text@ == "Failed to open image "@ + self.path@ + ": "@ + self.reason@,
    {
        let mut text = String::from_str("Failed to open image ");
        text.append(self.path.as_str());
        text.append(": ");
        text.append(self.reason.as_str());
        text
    }
}

/// What the window shows in its main panel.
#[derive(Clone, Copy, Debug, PartialEq, Eq, Structural)]
pub enum Screen {
    /// The image on screen, drawn from its texture.
    Image(TextureHandle),
    /// The image on screen has no texture.
    Loading,
    /// There is no image at all.
    NoImage,
}

impl Screen {
    /// The text shown in place of an image, where there is none to draw.
    pub fn caption(&self) -> (text: Option<&'static str>)
        ensures
            match *self {
                Screen::Image(_) => text is None,
                Screen::Loading => text matches Some(line) && line@
                    == "Loading image or error occurred..."@,
                Screen::NoImage => text matches Some(line) && line@ == "No image available."@,
            },
    {
        match self {
            Screen::Image(_) => None,
            Screen::Loading => Some("Loading image or error occurred..."),
            Screen::NoImage => Some("No image available."),
        }
    }
}

/// The keys that went down since the last frame.
#[derive(Clone, Copy, Debug, PartialEq, Eq, Structural)]
pub struct Keys {
    /// The key that steps forward.
    pub advance: bool,
    /// The key that steps back.
    pub retreat: bool,
}

/// What one frame asks of the window system.
#[derive(Clone, Copy, Debug, PartialEq, Eq, Structural)]
pub struct Frame {
    /// What to draw.
    pub screen: Screen,
    /// Whether to draw again without waiting for input.
    pub repaint: bool,
}

/// The paths of `loads`, in their order.
pub open spec fn load_paths(loads: Seq<ImageLoad>) -> Seq<Seq<char>> {
    Seq::new(loads.len(), |i: int| loads[i].path@)
}

/// `textures` after each load of `loads` that gave a texture was recorded,
/// in order, a later texture for a path taking the place of an earlier one.
pub open spec fn with_loaded(
    textures: Map<Seq<char>, TextureHandle>,
    loads: Seq<ImageLoad>,
) -> Map<Seq<char>, TextureHandle>
    decreases loads.len(),
{
    if loads.len() == 0 {
        textures
    } else {
        let before = with_loaded(textures, loads.drop_last());
        match loads.last().outcome {
            Ok(handle) => before.insert(loads.last().path@, handle),
            Err(_) => before,
        }
    }
}

/// The failure that a load stands for, if it gave no texture.
pub open spec fn failure_of(load: ImageLoad) -> Option<LoadError> {
    match load.outcome {
        Ok(_) => None,
        Err(reason) => Some(LoadError { path: load.path, reason }),
    }
}

/// The loads of `loads` that gave no texture, as failures, in their order.
pub open spec fn failures_of(loads: Seq<ImageLoad>) -> Seq<LoadError>
    decreases loads.len(),
{
    if loads.len() == 0 {
        Seq::empty()
    } else {
        let before = failures_of(loads.drop_last());
        match failure_of(loads.last()) {
            Some(failure) => before.push(failure),
            None => before,
        }
    }
}

/// What a slideshow window is: its playlist, the texture of each path that
/// has one, the token of each path that holds the viewer back, and the text
/// under the image.
pub ghost struct Slideshow {
    pub playlist: PlaylistView,
    pub textures: Map<Seq<char>, TextureHandle>,
    pub requirements: Map<Seq<char>, String>,
    pub output_text: Seq<char>,
}

impl Slideshow {
    /// Whether the image on screen holds the viewer back: its path has a
    /// requirement.
    pub open spec fn gated(self) -> bool {
        match self.playlist.current() {
            Some(path) => self.requirements.dom().contains(path),
            None => false,
        }
    }

    /// Whether a step forward is taken: there is an image on screen, and it
    /// does not hold the viewer back.
    pub open spec fn can_advance(self) -> bool {
        self.playlist.paths.len() > 0 && !self.gated()
    }

    /// Whether a step back is taken: there is an image on screen.
    pub open spec fn can_retreat(self) -> bool {
        self.playlist.paths.len() > 0
    }

    /// The window after the key that steps forward.
    pub open spec fn advanced(self) -> Slideshow {
        if self.can_advance() {
            Slideshow { playlist: self.playlist.advanced(), ..self }
        } else {
            self
        }
    }

    /// The window after the key that steps back.
    pub open spec fn retreated(self) -> Slideshow {
        Slideshow { playlist: self.playlist.retreated(), ..self }
    }

    /// The window after `steps` presses of the key that steps forward.
    pub open spec fn advanced_by(self, steps: nat) -> Slideshow
        decreases steps,
    {
        if steps == 0 {
            self
        } else {
            self.advanced().advanced_by((steps - 1) as nat)
        }
    }

    /// What the window shows.
    pub open spec fn screen(self) -> Screen {
        match self.playlist.current() {
            Some(path) => if self.textures.dom().contains(path) {
                Screen::Image(self.textures[path])
            } else {
                Screen::Loading
            },
            None => Screen::NoImage,
        }
    }

    /// The window after the keys of one frame: the step forward first, then
    /// the step back.
    pub open spec fn after_keys(self, keys: Keys) -> Slideshow {
        let stepped = if keys.advance {
            self.advanced()
        } else {
            self
        };
        if keys.retreat {
            stepped.retreated()
        } else {
            stepped
        }
    }

    /// Whether the keys of one frame ask for another frame: one of them led
    /// to a step.
    pub open spec fn repaint_after(self, keys: Keys) -> bool {
        (keys.advance && self.can_advance()) || (keys.retreat && self.can_retreat())
    }

    /// The window after one load was recorded: with the texture, if the load
    /// gave one, and as it was, if not.
    pub open spec fn with_load(self, load: ImageLoad) -> Slideshow {
        match load.outcome {
            Ok(handle) => Slideshow { textures: self.textures.insert(load.path@, handle), ..self },
            Err(_) => self,
        }
    }

    /// The window after the images of a directory were loaded: their paths
    /// added to the playlist, and the textures that they gave recorded.
    pub open spec fn with_directory(self, loads: Seq<ImageLoad>) -> Slideshow {
        Slideshow {
            playlist: self.playlist.extended(load_paths(loads)),
            textures: with_loaded(self.textures, loads),
            ..self
        }
    }

    /// The path whose texture has yet to be loaded before the first frame:
    /// the first of the playlist, unless it has a texture.
    pub open spec fn missing_first(self) -> Option<Seq<char>> {
        if self.playlist.paths.len() > 0 && !self.textures.dom().contains(self.playlist.paths[0]) {
            Some(self.playlist.paths[0])
        } else {
            None
        }
    }
}

/// A step forward from an image that holds the viewer back leaves the window
/// as it is.
pub proof fn lemma_gated_advance_stays(window: Slideshow)
    requires
        window.gated(),
    ensures
        window.advanced() == window,
{
}

/// A step back does not look at the requirements: whatever they are, it
/// leads to the same position.
pub proof fn lemma_retreat_ignores_requirements(
    window: Slideshow,
    requirements: Map<Seq<char>, String>,
)
    ensures
        (Slideshow { requirements, ..window }).retreated().playlist
            == window.retreated().playlist,
        window.retreated().playlist.index == crate::playlist::previous_index(
            window.playlist.index,
            window.playlist.paths.len() as int,
        ),
{
}

/// A step back from the first image shows the last one, and a step forward
/// from the last image, where it does not hold the viewer back, shows the
/// first one.
pub proof fn lemma_window_wraps(window: Slideshow)
    requires
        window.playlist.well_formed(),
        window.playlist.paths.len() > 0,
    ensures
        window.playlist.index == 0 ==> window.retreated().playlist.index
            == window.playlist.paths.len() - 1,
        window.playlist.index == window.playlist.paths.len() - 1 && !window.gated()
            ==> window.advanced().playlist.index == 0,
{
    lemma_step(window.playlist.index, window.playlist.paths.len() as int);
}

/// Pressing the key that steps forward leaves everything but the position
/// as it was, and where no path of the playlist has a requirement, it moves
/// the position as far as the playlist alone would.
pub proof fn lemma_advanced_by(window: Slideshow, steps: nat)
    requires
        window.playlist.well_formed(),
        window.playlist.paths.len() > 0,
        forall|i: int|
            0 <= i < window.playlist.paths.len() ==> !window.requirements.dom().contains(
                #[trigger] window.playlist.paths[i],
            ),
    ensures
        window.advanced_by(steps) == (Slideshow {
            playlist: PlaylistView {
                index: stepped_forward(
                    window.playlist.index,
                    window.playlist.paths.len() as int,
                    steps,
                ),
                ..window.playlist
            },
            ..window
        }),
    decreases steps,
{
    if steps > 0 {
        lemma_step(window.playlist.index, window.playlist.paths.len() as int);
        assert(!window.gated());
        lemma_advanced_by(window.advanced(), (steps - 1) as nat);
    }
}

/// Where no image holds the viewer back, as many steps forward as the
/// playlist has paths lead back to the image they began at.
pub proof fn lemma_full_round(window: Slideshow)
    requires
        window.playlist.well_formed(),
        window.playlist.paths.len() > 0,
        forall|i: int|
            0 <= i < window.playlist.paths.len() ==> !window.requirements.dom().contains(
                #[trigger] window.playlist.paths[i],
            ),
    ensures
        window.advanced_by(window.playlist.paths.len()) == window,
{
    lemma_advanced_by(window, window.playlist.paths.len());
    lemma_full_cycle(window.playlist.index, window.playlist.paths.len() as int);
}

/// Whether one of `loads` gave a texture for `path`.
pub open spec fn gives_texture(loads: Seq<ImageLoad>, path: Seq<char>) -> bool {
    exists|i: int| 0 <= i < loads.len() && (#[trigger] loads[i]).path@ == path && loads[i].outcome is Ok
}

/// Recording loads takes no texture away: a path that had one has one after.
pub proof fn lemma_textures_are_kept(
    textures: Map<Seq<char>, TextureHandle>,
    loads: Seq<ImageLoad>,
    path: Seq<char>,
)
    requires
        textures.dom().contains(path),
    ensures
        with_loaded(textures, loads).dom().contains(path),
    decreases loads.len(),
{
    if loads.len() > 0 {
        lemma_textures_are_kept(textures, loads.drop_last(), path);
    }
}

/// A path for which no load gave a texture is left as it was: with the
/// texture it had, or without one. Loads that failed change nothing.
pub proof fn lemma_failed_loads_change_nothing(
    textures: Map<Seq<char>, TextureHandle>,
    loads: Seq<ImageLoad>,
    path: Seq<char>,
)
    requires
        !gives_texture(loads, path),
    ensures
        with_loaded(textures, loads).dom().contains(path) == textures.dom().contains(path),
        textures.dom().contains(path) ==> with_loaded(textures, loads)[path] == textures[path],
    decreases loads.len(),
{
    if loads.len() > 0 {
        let front = loads.drop_last();
        if gives_texture(front, path) {
            let i = choose|i: int|
                0 <= i < front.len() && (#[trigger] front[i]).path@ == path
                    && front[i].outcome is Ok;
            assert(loads[i] == front[i]);
        }
        lemma_failed_loads_change_nothing(textures, front, path);
        assert(loads[loads.len() - 1] == loads.last());
    }
}

/// Every load that gave a texture leaves its path with one.
pub proof fn lemma_loaded_path_has_texture(
    textures: Map<Seq<char>, TextureHandle>,
    loads: Seq<ImageLoad>,
    at: int,
)
    requires
        0 <= at < loads.len(),
        loads[at].outcome is Ok,
    ensures
        with_loaded(textures, loads).dom().contains(loads[at].path@),
    decreases loads.len(),
{
    let front = loads.drop_last();
    if at < front.len() {
        assert(front[at] == loads[at]);
        lemma_loaded_path_has_texture(textures, front, at);
    }
}

/// Recording the loads one after the other gives the textures that recording
/// them all at once gives.
proof fn lemma_with_loaded_next(
    textures: Map<Seq<char>, TextureHandle>,
    loads: Seq<ImageLoad>,
    count: int,
)
    requires
        0 <= count < loads.len(),
    ensures
        with_loaded(textures, loads.take(count + 1)) == match loads[count].outcome {
            Ok(handle) => with_loaded(textures, loads.take(count)).insert(
                loads[count].path@,
                handle,
            ),
            Err(_) => with_loaded(textures, loads.take(count)),
        },
        failures_of(loads.take(count + 1)) == match failure_of(loads[count]) {
            Some(failure) => failures_of(loads.take(count)).push(failure),
            None => failures_of(loads.take(count)),
        },
{
    assert(loads.take(count + 1).drop_last() =~= loads.take(count));
    assert(loads.take(count + 1).last() == loads[count]);
}

/// The loads of `loads` that gave no texture, as failures, in their order.
pub fn load_failures(loads: &Vec<ImageLoad>) -> (failures: Vec<LoadError>)
    ensures
        failures@ == failures_of(loads@),
{
    let mut failures: Vec<LoadError> = Vec::new();
    let mut i: usize = 0;
    while i < loads.len()
        invariant
            i <= loads.len(),
            failures@ == failures_of(loads@.take(i as int)),
        decreases loads.len() - i,
    {
        proof {
            lemma_with_loaded_next(Map::empty(), loads@, i as int);
        }
        match &loads[i].outcome {
            Ok(_) => {},
            Err(reason) => {
                failures.push(LoadError { path: loads[i].path.clone(), reason: reason.clone() });
            },
        }
        i += 1;
    }
    assert(loads@.take(i as int) =~= loads@);
    failures
}

/// Records in `textures` each texture that `loads` gave, and hands back the
/// paths of `loads`, in their order.
fn record_loads(textures: &mut PathMap<TextureHandle>, loads: &Vec<ImageLoad>) -> (found: Vec<
    String,
>)
    ensures
        final(textures)@ == with_loaded(old(textures)@, loads@),
        found.deep_view() == load_paths(loads@),
{
    let mut found: Vec<String> = Vec::new();
    let mut i: usize = 0;
    while i < loads.len()
        invariant
            i <= loads.len(),
            textures@ == with_loaded(old(textures)@, loads@.take(i as int)),
            found.len() == i,
            forall|j: int| 0 <= j < i ==> #[trigger] found[j]@ == loads[j].path@,
        decreases loads.len() - i,
    {
        proof {
            lemma_with_loaded_next(old(textures)@, loads@, i as int);
        }
        match &loads[i].outcome {
            Ok(handle) => {
                textures.insert(loads[i].path.clone(), *handle);
            },
            Err(_) => {},
        }
        found.push(loads[i].path.clone());
        i += 1;
    }
    assert(loads@.take(i as int) =~= loads@);
    assert(found.deep_view() =~= load_paths(loads@));
    found
}

/// The window of a slideshow.
pub struct GameWindow {
    output_text: String,
    textures: PathMap<TextureHandle>,
    playlist: Playlist,
    image_requirements: PathMap<String>,
}

impl View for GameWindow {
    type V = Slideshow;

    closed spec fn view(&self) -> Slideshow {
        Slideshow {
            playlist: self.playlist@,
            textures: self.textures@,
            requirements: self.image_requirements@,
            output_text: self.output_text@,
        }
    }
}

impl Default for GameWindow {
    /// A window without images.
    fn default() -> (window: GameWindow)
        ensures
            window@ == (Slideshow {
                playlist: PlaylistView { paths: Seq::empty(), index: 0, cover: None },
                textures: Map::empty(),
                requirements: Map::empty(),
                output_text: Seq::empty(),
            }),
            window@.playlist.well_formed(),
    {
        let seed: Vec<String> = Vec::new();
        let found: Vec<String> = Vec::new();
        proof {
            let none = Seq::<Seq<char>>::empty();
            assert(seed.deep_view() =~= none);
            assert(found.deep_view() =~= none);
            assert(none + none =~= none);
            assert(display_order(none, none) =~= none);
        }
        let playlist = Playlist::new(seed, found);
        GameWindow {
            output_text: String::new(),
            textures: PathMap::new(),
            playlist,
            image_requirements: PathMap::new(),
        }
    }
}

impl GameWindow {
    /// The window of a seed list of paths and of the images that were loaded
    /// from the picture directory. Its playlist holds the seed list and the
    /// path of every load, with a texture or without, in their order of
    /// display; it starts at the first image, and no image holds the viewer
    /// back.
    pub fn new(image_paths: Vec<String>, loads: Vec<ImageLoad>) -> (window: GameWindow)
        ensures
            window@ == (Slideshow {
                playlist: PlaylistView {
                    paths: display_order(image_paths.deep_view(), load_paths(loads@)),
                    index: 0,
                    cover: cover_of(image_paths.deep_view()),
                },
                textures: with_loaded(Map::empty(), loads@),
                requirements: Map::empty(),
                output_text: Seq::empty(),
            }),
            window@.playlist.well_formed(),
    {
        let mut textures: PathMap<TextureHandle> = PathMap::new();
        let found = record_loads(&mut textures, &loads);
        GameWindow {
            output_text: String::new(),
            textures,
            playlist: Playlist::new(image_paths, found),
            image_requirements: PathMap::new(),
        }
    }

    /// Takes in the images that were loaded from a directory: adds the path
    /// of every load to the playlist, with a texture or without, puts the
    /// playlist in order again, and records the textures. Hands back the
    /// loads that failed, in their order.
    pub fn load_images_from_directory(&mut self, loads: Vec<ImageLoad>) -> (failures: Vec<
        LoadError,
    >)
        ensures
            final(self)@ == old(self)@.with_directory(loads@),
            final(self)@.playlist.well_formed(),
            failures@ == failures_of(loads@),
    {
        let failures = load_failures(&loads);
        let found = record_loads(&mut self.textures, &loads);
        self.playlist.extend(found);
        failures
    }

    /// Takes in one image that was loaded. A texture is recorded for its
    /// path, in place of the one that the path had before, if any. A failure
    /// is handed back and leaves the window as it is.
    pub fn load_image(&mut self, load: ImageLoad) -> (result: Result<(), LoadError>)
        ensures
            final(self)@ == old(self)@.with_load(load),
            match result {
                Ok(_) => load.outcome is Ok,
                Err(failure) => Some(failure) == failure_of(load),
            },
    {
        match load.outcome {
            Ok(handle) => {
                self.textures.insert(load.path, handle);
                Ok(())
            },
            Err(reason) => Err(LoadError { path: load.path, reason }),
        }
    }

    /// The path whose image has yet to be loaded before the first frame: the
    /// first of the playlist, unless it has a texture.
    pub fn initial_image_path(&self) -> (path: Option<String>)
        ensures
            match path {
                Some(first) => Some(first@) == self@.missing_first(),
                None => self@.missing_first() is None,
            },
    {
        let paths = self.playlist.paths();
        if paths.len() > 0 && !self.textures.contains_key(&paths[0]) {
            assert(paths.deep_view()[0] == paths[0]@);
            Some(paths[0].clone())
        } else {
            if paths.len() > 0 {
                assert(paths.deep_view()[0] == paths[0]@);
            }
            None
        }
    }

    /// The paths of the playlist, in their order of display.
    pub fn image_paths(&self) -> (paths: &Vec<String>)
        ensures
            paths.deep_view() == self@.playlist.paths,
            self@.playlist.well_formed(),
    {
        self.playlist.paths()
    }

    /// The position of the image on screen.
    pub fn current_image_index(&self) -> (index: usize)
        ensures
            index == self@.playlist.index,
            self@.playlist.well_formed(),
    {
        self.playlist.index()
    }

    /// The texture of `path`, if one was loaded for it.
    pub fn texture(&self, path: &String) -> (texture: Option<TextureHandle>)
        ensures
            match texture {
                Some(handle) => self@.textures.dom().contains(path@) && handle
                    == self@.textures[path@],
                None => !self@.textures.dom().contains(path@),
            },
    {
        match self.textures.get(path) {
            Some(handle) => Some(*handle),
            None => None,
        }
    }

    /// The number of paths that have a texture.
    pub fn texture_count(&self) -> (count: usize)
        ensures
            self@.textures.dom().finite(),
            count == self@.textures.dom().len(),
    {
        self.textures.len()
    }

    /// The text under the image.
    pub fn output_text(&self) -> (text: &String)
        ensures
            text@ == self@.output_text,
    {
        &self.output_text
    }

    /// Puts `text` under the image.
    pub fn set_output_text(&mut self, text: String)
        ensures
            final(self)@ == (Slideshow { output_text: text@, ..old(self)@ }),
    {
        self.output_text = text;
    }

    /// Makes the image at `path` hold the viewer back, with `token` as what
    /// it asks for.
    pub fn require(&mut self, path: String, token: String)
        ensures
            final(self)@ == (Slideshow {
                requirements: old(self)@.requirements.insert(path@, token),
                ..old(self)@
            }),
    {
        self.image_requirements.insert(path, token);
    }

    /// What the image at `path` asks for before it lets the viewer on, if it
    /// asks for anything.
    pub fn requirement(&self, path: &String) -> (token: Option<&String>)
        ensures
            match token {
                Some(held) => self@.requirements.dom().contains(path@) && *held
                    == self@.requirements[path@],
                None => !self@.requirements.dom().contains(path@),
            },
    {
        self.image_requirements.get(path)
    }

    /// What the window shows: the texture of the image on screen, a
    /// placeholder where that image has none, and another where there is no
    /// image.
    pub fn screen(&self) -> (screen: Screen)
        ensures
            screen == self@.screen(),
    {
        match self.playlist.current() {
            Some(path) => match self.textures.get(path) {
                Some(handle) => Screen::Image(*handle),
                None => Screen::Loading,
            },
            None => Screen::NoImage,
        }
    }

    /// Steps to the next image, and from the last one to the first, unless
    /// the image on screen holds the viewer back. Says whether the step was
    /// taken.
    pub fn advance(&mut self) -> (moved: bool)
        ensures
            final(self)@ == old(self)@.advanced(),
            final(self)@.playlist.well_formed(),
            moved == old(self)@.can_advance(),
    {
        let gated = match self.playlist.current() {
            Some(path) => self.image_requirements.contains_key(path),
            None => false,
        };
        if gated {
            proof {
                use_type_invariant(&self.playlist);
            }
            false
        } else {
            self.playlist.advance()
        }
    }

    /// Steps to the image before, and from the first one to the last,
    /// whatever holds the viewer back. Says whether the step was taken: it
    /// is wherever there is an image.
    pub fn retreat(&mut self) -> (moved: bool)
        ensures
            final(self)@ == old(self)@.retreated(),
            final(self)@.playlist.well_formed(),
            moved == old(self)@.can_retreat(),
    {
        self.playlist.retreat()
    }

    /// One frame: says what to show, which is the image that was on screen
    /// when the frame began, then takes the step forward if its key went
    /// down, then the step back if its key went down, and asks for another
    /// frame if a step was taken.
    pub fn update(&mut self, keys: Keys) -> (frame: Frame)
        ensures
            frame.screen == old(self)@.screen(),
            frame.repaint == old(self)@.repaint_after(keys),
            final(self)@ == old(self)@.after_keys(keys),
            final(self)@.playlist.well_formed(),
    {
        let screen = self.screen();
        let mut repaint = false;
        if keys.advance {
            if self.advance() {
                repaint = true;
            }
        }
        if keys.retreat {
            if self.retreat() {
                repaint = true;
            }
        }
        proof {
            use_type_invariant(&self.playlist);
        }
        Frame { screen, repaint }
    }
}

} // verus!
