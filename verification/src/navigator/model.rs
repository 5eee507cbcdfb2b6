//! The data of the project tree.
//!
//! ```text
//! Project
//! └── assets[]               Asset    (uuid, id, meta)
//!     └── pages[]            Page     (uuid, content_uuid, id)
//!         └── modules[]      Module   (uuid, content_uuid, base_name, id)
//!             └── sections[] Section  (uuid, kind, name)
//!                 └── patterns[] Pattern (loop / regions / clip / strip)
//! ```
//!
//! Every node is owned by its parent. A page or module carries, beside its
//! own identity, the identity of its content: a duplicate shares it, a clone
//! gets a new one.
use vstd::prelude::*;

use crate::ids::random_marks;
use crate::ids::Uuid;
use crate::number::Real32;
use crate::number::HALF_BITS;
use crate::number::ONE_BITS;
use crate::number::ZERO_BITS;
use crate::take::TakeState;
use crate::take::TakeView;

verus! {

/// Number of parallel layers of a music section.
pub const LAYER_COUNT: usize = 8;

/// What an asset bundle holds. Only music is authored.
#[derive(Debug, Clone, Copy, PartialEq, Eq, Structural)]
pub enum AssetType {
    Music,
    Locations,
    Globals,
    Sounds,
}

impl Default for AssetType {
    fn default() -> (r: Self)
        ensures
            r == AssetType::Music,
    {
        AssetType::Music
    }
}

/// Header data of an asset bundle.
#[derive(Debug)]
pub struct AssetMeta {
    pub production_code: String,
    pub variant_name: String,
    pub asset_name: String,
    pub asset_type: AssetType,
    pub description: String,
    pub tags: Vec<String>,
}

/// The contents of an [`AssetMeta`].
#[verifier::ext_equal]
pub struct AssetMetaView {
    pub production_code: Seq<char>,
    pub variant_name: Seq<char>,
    pub asset_name: Seq<char>,
    pub asset_type: AssetType,
    pub description: Seq<char>,
    pub tags: Seq<Seq<char>>,
}

impl View for AssetMeta {
    type V = AssetMetaView;

    open spec fn view(&self) -> AssetMetaView {
        AssetMetaView {
            production_code: self.production_code@,
            variant_name: self.variant_name@,
            asset_name: self.asset_name@,
            asset_type: self.asset_type,
            description: self.description@,
            tags: self.tags@.map_values(|t: String| t@),
        }
    }
}

/// Header data with nothing filled in.
pub open spec fn blank_meta() -> AssetMetaView {
    AssetMetaView {
        production_code: Seq::empty(),
        variant_name: Seq::empty(),
        asset_name: Seq::empty(),
        asset_type: AssetType::Music,
        description: Seq::empty(),
        tags: Seq::empty(),
    }
}

impl Default for AssetMeta {
    fn default() -> (r: Self)
        ensures
            r@ == blank_meta(),
    {
        let r = AssetMeta {
            production_code: String::new(),
            variant_name: String::new(),
            asset_name: String::new(),
            asset_type: AssetType::Music,
            description: String::new(),
            tags: Vec::new(),
        };
        assert(r@ =~= blank_meta());
        r
    }
}

impl Clone for AssetMeta {
    fn clone(&self) -> (r: Self)
        ensures
            r@ == self@,
    {
        let r = AssetMeta {
            production_code: self.production_code.clone(),
            variant_name: self.variant_name.clone(),
            asset_name: self.asset_name.clone(),
            asset_type: self.asset_type,
            description: self.description.clone(),
            tags: self.tags.clone(),
        };
        assert(r@.tags =~= self@.tags);
        r
    }
}

/// The role of a section.
#[derive(Debug, Clone, Copy, PartialEq, Eq, Hash, Structural)]
pub enum SectionKind {
    Intro,
    Main,
    Outro,
}

impl SectionKind {
    /// The place of the kind in the canonical order Intro, Main, Outro.
    pub open spec fn order(self) -> int {
        match self {
            SectionKind::Intro => 0,
            SectionKind::Main => 1,
            SectionKind::Outro => 2,
        }
    }

    /// The kind in lower case, as folder names have it.
    pub open spec fn slug_text(self) -> Seq<char> {
        match self {
            SectionKind::Intro => "intro"@,
            SectionKind::Main => "main"@,
            SectionKind::Outro => "outro"@,
        }
    }

    /// The kind as the user reads it.
    pub open spec fn label_text(self) -> Seq<char> {
        match self {
            SectionKind::Intro => "Intro"@,
            SectionKind::Main => "Main"@,
            SectionKind::Outro => "Outro"@,
        }
    }

    /// The letter that begins pattern ids of this kind.
    pub open spec fn letter(self) -> char {
        match self {
            SectionKind::Intro => 'i',
            SectionKind::Main => 'm',
            SectionKind::Outro => 'o',
        }
    }

    pub fn slug(self) -> (r: &'static str)
        ensures
            r@ == self.slug_text(),
    {
        match self {
            SectionKind::Intro => "intro",
            SectionKind::Main => "main",
            SectionKind::Outro => "outro",
        }
    }

    /// Pattern-id prefix in clip names (`i1`, `m1`, `o1`).
    pub fn pattern_letter(self) -> (r: char)
        ensures
            r == self.letter(),
    {
        match self {
            SectionKind::Intro => 'i',
            SectionKind::Main => 'm',
            SectionKind::Outro => 'o',
        }
    }

    pub fn label(self) -> (r: &'static str)
        ensures
            r@ == self.label_text(),
    {
        match self {
            SectionKind::Intro => "Intro",
            SectionKind::Main => "Main",
            SectionKind::Outro => "Outro",
        }
    }

    /// Index in the canonical order.
    pub fn order_index(self) -> (r: usize)
        ensures
            r == self.order(),
    {
        match self {
            SectionKind::Intro => 0,
            SectionKind::Main => 1,
            SectionKind::Outro => 2,
        }
    }
}

/// One fade window, in sample frames.
///
/// At its sync point both clips of a transition are at full level. An
/// in-region is made with the sync point at its end, an out-region with the
/// sync point at its begin. `fade_pct` times the length is the duration of
/// the fade (zero: none, the audio is faded already) and `fade_shape` curves
/// its slope.
#[derive(Debug, Clone, Copy, PartialEq, Eq, Structural)]
pub struct Region {
    pub begin_frames: u64,
    pub end_frames: u64,
    pub sync_frames: u64,
    pub fade_pct: Real32,
    pub fade_shape: Real32,
    pub group: u32,
}

/// The level that a fade gives at one frame.
#[derive(Debug, Clone, Copy, PartialEq, Eq, Structural)]
pub enum FadeLevel {
    Silent,
    Full,
    /// `offset` frames into a ramp from silent to full.
    Rising { offset: u64, length: u64 },
    /// `offset` frames into a ramp from full to silent.
    Falling { offset: u64, length: u64 },
}

impl Region {
    /// The region of an entry, in sync at its end.
    pub open spec fn entry(begin: u64, end: u64, fade_pct: Real32, fade_shape: Real32) -> Region {
        Region {
            begin_frames: begin,
            end_frames: end,
            sync_frames: end,
            fade_pct,
            fade_shape,
            group: 0,
        }
    }

    /// The region of an exit, in sync at its begin.
    pub open spec fn exit(begin: u64, end: u64, fade_pct: Real32, fade_shape: Real32) -> Region {
        Region {
            begin_frames: begin,
            end_frames: end,
            sync_frames: begin,
            fade_pct,
            fade_shape,
            group: 0,
        }
    }

    /// Its length in frames; none where it ends before it begins.
    pub open spec fn length(self) -> int {
        if self.end_frames >= self.begin_frames {
            self.end_frames - self.begin_frames
        } else {
            0
        }
    }

    /// The region has a fade of its own.
    pub open spec fn fades(self) -> bool {
        !self.fade_pct.at_most(Real32 { bits: ZERO_BITS })
    }

    /// The frames over which a fade-in of `fade_frames` rises.
    pub open spec fn rise(self, fade_frames: int) -> (int, int) {
        (self.begin_frames as int, self.begin_frames + fade_frames)
    }

    /// The frames over which a fade-out of `fade_frames` falls.
    pub open spec fn fall(self, fade_frames: int) -> (int, int) {
        (
            if self.end_frames >= fade_frames {
                self.end_frames - fade_frames
            } else {
                0
            },
            self.end_frames as int,
        )
    }

    /// In-region with the sync point at the end.
    pub fn new_in(
        begin_frames: u64,
        end_frames: u64,
        fade_pct: Real32,
        fade_shape: Real32,
    ) -> (r: Region)
        ensures
            r == Region::entry(begin_frames, end_frames, fade_pct, fade_shape),
    {
        Region {
            begin_frames,
            end_frames,
            sync_frames: end_frames,
            fade_pct,
            fade_shape,
            group: 0,
        }
    }

    /// Out-region with the sync point at the start.
    pub fn new_out(
        begin_frames: u64,
        end_frames: u64,
        fade_pct: Real32,
        fade_shape: Real32,
    ) -> (r: Region)
        ensures
            r == Region::exit(begin_frames, end_frames, fade_pct, fade_shape),
    {
        Region {
            begin_frames,
            end_frames,
            sync_frames: begin_frames,
            fade_pct,
            fade_shape,
            group: 0,
        }
    }

    /// Region length in frames.
    pub fn span(&self) -> (r: u64)
        ensures
            r == self.length(),
    {
        if self.end_frames >= self.begin_frames {
            self.end_frames - self.begin_frames
        } else {
            0
        }
    }

    /// Frames of the fade-in ramp, `fade_frames` long from the begin.
    pub fn fade_span_in(&self, fade_frames: u64) -> (r: (u64, u64))
        requires
            self.begin_frames + fade_frames <= u64::MAX,
        ensures
            (r.0 as int, r.1 as int) == self.rise(fade_frames as int),
    {
        (self.begin_frames, self.begin_frames + fade_frames)
    }

    /// Frames of the fade-out ramp, `fade_frames` long up to the end; it
    /// begins at zero where it would begin before that.
    pub fn fade_span_out(&self, fade_frames: u64) -> (r: (u64, u64))
        ensures
            (r.0 as int, r.1 as int) == self.fall(fade_frames as int),
    {
        if self.end_frames >= fade_frames {
            (self.end_frames - fade_frames, self.end_frames)
        } else {
            (0, self.end_frames)
        }
    }

    /// Level at local `frame` when this region is an in-region whose fade
    /// lasts `fade_frames`: rising from the begin.
    pub open spec fn in_level(self, fade_frames: u64, frame: u64) -> FadeLevel {
        if !self.fades() || frame >= self.begin_frames + fade_frames && frame > self.begin_frames {
            FadeLevel::Full
        } else if frame <= self.begin_frames {
            FadeLevel::Silent
        } else {
            FadeLevel::Rising { offset: (frame - self.begin_frames) as u64, length: fade_frames }
        }
    }

    /// Level at local `frame` when this region is an out-region whose fade
    /// lasts `fade_frames`: falling to silent at the end.
    pub open spec fn out_level(self, fade_frames: u64, frame: u64) -> FadeLevel {
        let start = if self.end_frames >= fade_frames {
            self.end_frames - fade_frames
        } else {
            0
        };
        if !self.fades() || frame <= start {
            FadeLevel::Full
        } else if frame >= self.end_frames {
            FadeLevel::Silent
        } else {
            FadeLevel::Falling {
                offset: (frame - start) as u64,
                length: (self.end_frames - start) as u64,
            }
        }
    }

    pub fn gain_as_in(&self, fade_frames: u64, frame: u64) -> (r: FadeLevel)
        requires
            self.begin_frames + fade_frames <= u64::MAX,
        ensures
            r == self.in_level(fade_frames, frame),
    {
        if self.fade_pct.le(Real32 { bits: ZERO_BITS }) {
            return FadeLevel::Full;
        }
        let (s, e) = self.fade_span_in(fade_frames);
        if frame <= s {
            FadeLevel::Silent
        } else if frame >= e {
            FadeLevel::Full
        } else {
            FadeLevel::Rising { offset: frame - s, length: e - s }
        }
    }

    pub fn gain_as_out(&self, fade_frames: u64, frame: u64) -> (r: FadeLevel)
        ensures
            r == self.out_level(fade_frames, frame),
    {
        if self.fade_pct.le(Real32 { bits: ZERO_BITS }) {
            return FadeLevel::Full;
        }
        let (s, e) = self.fade_span_out(fade_frames);
        if frame <= s {
            FadeLevel::Full
        } else if frame >= e {
            FadeLevel::Silent
        } else {
            FadeLevel::Falling { offset: frame - s, length: e - s }
        }
    }
}

/// Stereo channel-strip values. Pan one half is the centre, width one is
/// full.
#[derive(Debug, Clone, Copy, PartialEq, Eq, Structural)]
pub struct ChannelStrip {
    pub volume: Real32,
    pub pan: Real32,
    pub width: Real32,
}

/// Full volume and width, centred.
pub open spec fn neutral_strip() -> ChannelStrip {
    ChannelStrip {
        volume: Real32 { bits: ONE_BITS },
        pan: Real32 { bits: HALF_BITS },
        width: Real32 { bits: ONE_BITS },
    }
}

impl Default for ChannelStrip {
    fn default() -> (r: Self)
        ensures
            r == neutral_strip(),
    {
        ChannelStrip {
            volume: Real32 { bits: ONE_BITS },
            pan: Real32 { bits: HALF_BITS },
            width: Real32 { bits: ONE_BITS },
        }
    }
}

/// Where the audio of a pattern comes from.
#[derive(Debug)]
pub struct ClipSource {
    pub path: String,
    pub take: Option<TakeState>,
}

/// The contents of a [`ClipSource`].
#[verifier::ext_equal]
pub struct ClipSourceView {
    pub path: Seq<char>,
    pub take: Option<TakeView>,
}

impl View for ClipSource {
    type V = ClipSourceView;

    open spec fn view(&self) -> ClipSourceView {
        ClipSourceView {
            path: self.path@,
            take: match self.take {
                Some(t) => Some(t@),
                None => None,
            },
        }
    }
}

impl Clone for ClipSource {
    fn clone(&self) -> (r: Self)
        ensures
            r@ == self@,
    {
        ClipSource {
            path: self.path.clone(),
            take: match &self.take {
                Some(t) => Some(t.clone()),
                None => None,
            },
        }
    }
}

/// The clip of a recorded take, without a file of its own.
pub open spec fn recorded(take: TakeView) -> ClipSourceView {
    ClipSourceView { path: Seq::empty(), take: Some(take) }
}

/// One pattern inside a section: a clip, its loop and its transition
/// regions.
#[derive(Debug)]
pub struct Pattern {
    pub uuid: Uuid,
    pub id: String,
    pub enabled: bool,
    pub ref_edit: bool,
    pub loop_start: u64,
    pub loop_end: u64,
    pub looping: bool,
    pub xfade: u64,
    pub xoffset: i64,
    pub channel_strip: ChannelStrip,
    pub clip_source: Option<ClipSource>,
    pub in_regions: Vec<Region>,
    pub out_regions: Vec<Region>,
}

/// The contents of a [`Pattern`].
#[verifier::ext_equal]
pub struct PatternView {
    pub uuid: Uuid,
    pub id: Seq<char>,
    pub enabled: bool,
    pub ref_edit: bool,
    pub loop_start: u64,
    pub loop_end: u64,
    pub looping: bool,
    pub xfade: u64,
    pub xoffset: i64,
    pub channel_strip: ChannelStrip,
    pub clip_source: Option<ClipSourceView>,
    pub in_regions: Seq<Region>,
    pub out_regions: Seq<Region>,
}

impl View for Pattern {
    type V = PatternView;

    open spec fn view(&self) -> PatternView {
        PatternView {
            uuid: self.uuid,
            id: self.id@,
            enabled: self.enabled,
            ref_edit: self.ref_edit,
            loop_start: self.loop_start,
            loop_end: self.loop_end,
            looping: self.looping,
            xfade: self.xfade,
            xoffset: self.xoffset,
            channel_strip: self.channel_strip,
            clip_source: match self.clip_source {
                Some(c) => Some(c@),
                None => None,
            },
            in_regions: self.in_regions@,
            out_regions: self.out_regions@,
        }
    }
}

/// A pattern without clip, loop or regions.
pub open spec fn empty_pattern(uuid: Uuid, id: Seq<char>) -> PatternView {
    PatternView {
        uuid,
        id,
        enabled: true,
        ref_edit: false,
        loop_start: 0,
        loop_end: 0,
        looping: true,
        xfade: 0,
        xoffset: 0,
        channel_strip: neutral_strip(),
        clip_source: None,
        in_regions: Seq::empty(),
        out_regions: Seq::empty(),
    }
}

impl Pattern {
    pub fn new(id: String) -> (r: Pattern)
        ensures
            r@ == empty_pattern(r.uuid, id@),
            random_marks(r.uuid.value),
    {
        Pattern {
            uuid: Uuid::new_v4(),
            id,
            enabled: true,
            ref_edit: false,
            loop_start: 0,
            loop_end: 0,
            looping: true,
            xfade: 0,
            xoffset: 0,
            channel_strip: ChannelStrip::default(),
            clip_source: None,
            in_regions: Vec::new(),
            out_regions: Vec::new(),
        }
    }

    /// A pattern that holds a recorded take and nothing else.
    pub fn of_take(id: String, take: TakeState) -> (r: Pattern)
        ensures
            r@ == (PatternView {
                clip_source: Some(recorded(take@)),
                ..empty_pattern(r.uuid, id@)
            }),
            random_marks(r.uuid.value),
    {
        let mut r = Pattern::new(id);
        r.clip_source = Some(ClipSource { path: String::new(), take: Some(take) });
        assert(r@.clip_source->0 =~= recorded(take@));
        r
    }
}

impl Clone for Pattern {
    fn clone(&self) -> (r: Self)
        ensures
            r@ == self@,
    {
        let r = Pattern {
            uuid: self.uuid,
            id: self.id.clone(),
            enabled: self.enabled,
            ref_edit: self.ref_edit,
            loop_start: self.loop_start,
            loop_end: self.loop_end,
            looping: self.looping,
            xfade: self.xfade,
            xoffset: self.xoffset,
            channel_strip: self.channel_strip,
            clip_source: match &self.clip_source {
                Some(c) => Some(c.clone()),
                None => None,
            },
            in_regions: self.in_regions.clone(),
            out_regions: self.out_regions.clone(),
        };
        assert(r.in_regions@ =~= self.in_regions@);
        assert(r.out_regions@ =~= self.out_regions@);
        r
    }
}

/// A section: the patterns that play one role in a module.
#[derive(Debug)]
pub struct Section {
    pub uuid: Uuid,
    pub kind: SectionKind,
    pub name: String,
    pub patterns: Vec<Pattern>,
}

/// The contents of a [`Section`].
#[verifier::ext_equal]
pub struct SectionView {
    pub uuid: Uuid,
    pub kind: SectionKind,
    pub name: Seq<char>,
    pub patterns: Seq<PatternView>,
}

impl View for Section {
    type V = SectionView;

    open spec fn view(&self) -> SectionView {
        SectionView {
            uuid: self.uuid,
            kind: self.kind,
            name: self.name@,
            patterns: self.patterns@.map_values(|p: Pattern| p@),
        }
    }
}

/// A section without name or patterns.
pub open spec fn empty_section(uuid: Uuid, kind: SectionKind) -> SectionView {
    SectionView { uuid, kind, name: Seq::empty(), patterns: Seq::empty() }
}

impl Section {
    pub fn new(kind: SectionKind) -> (r: Section)
        ensures
            r@ == empty_section(r.uuid, kind),
            random_marks(r.uuid.value),
    {
        Section { uuid: Uuid::new_v4(), kind, name: String::new(), patterns: Vec::new() }
    }
}

impl Clone for Section {
    fn clone(&self) -> (r: Self)
        ensures
            r@ == self@,
    {
        let r = Section {
            uuid: self.uuid,
            kind: self.kind,
            name: self.name.clone(),
            patterns: self.patterns.clone(),
        };
        assert(r@.patterns =~= self@.patterns);
        r
    }
}

/// A module: sections in canonical order.
#[derive(Debug)]
pub struct Module {
    pub uuid: Uuid,
    pub content_uuid: Uuid,
    pub base_name: String,
    pub id: String,
    pub sections: Vec<Section>,
}

/// The contents of a [`Module`].
#[verifier::ext_equal]
pub struct ModuleView {
    pub uuid: Uuid,
    pub content_uuid: Uuid,
    pub base_name: Seq<char>,
    pub id: Seq<char>,
    pub sections: Seq<SectionView>,
}

impl View for Module {
    type V = ModuleView;

    open spec fn view(&self) -> ModuleView {
        ModuleView {
            uuid: self.uuid,
            content_uuid: self.content_uuid,
            base_name: self.base_name@,
            id: self.id@,
            sections: self.sections@.map_values(|s: Section| s@),
        }
    }
}

/// A module without sections, whose content is its own.
pub open spec fn empty_module(uuid: Uuid, id: Seq<char>) -> ModuleView {
    ModuleView {
        uuid,
        content_uuid: uuid,
        base_name: "Module"@,
        id,
        sections: Seq::empty(),
    }
}

impl Module {
    pub fn new(id: String) -> (r: Module)
        ensures
            r@ == empty_module(r.uuid, id@),
            random_marks(r.uuid.value),
    {
        let uuid = Uuid::new_v4();
        Module {
            uuid,
            content_uuid: uuid,
            base_name: "Module".to_owned(),
            id,
            sections: Vec::new(),
        }
    }

    /// A module with one empty Main section.
    pub(crate) fn seeded(id: String) -> (r: Module)
        ensures
            seeded_module(r@, id@),
    {
        let mut module = Module::new(id);
        let section = Section::new(SectionKind::Main);
        let ghost s = section@;
        module.sections.push(section);
        assert(module@.sections =~= seq![s]);
        module
    }
}

impl Clone for Module {
    fn clone(&self) -> (r: Self)
        ensures
            r@ == self@,
    {
        let r = Module {
            uuid: self.uuid,
            content_uuid: self.content_uuid,
            base_name: self.base_name.clone(),
            id: self.id.clone(),
            sections: self.sections.clone(),
        };
        assert(r@.sections =~= self@.sections);
        r
    }
}

/// A page of modules.
#[derive(Debug)]
pub struct Page {
    pub uuid: Uuid,
    pub content_uuid: Uuid,
    pub id: String,
    pub modules: Vec<Module>,
}

/// The contents of a [`Page`].
#[verifier::ext_equal]
pub struct PageView {
    pub uuid: Uuid,
    pub content_uuid: Uuid,
    pub id: Seq<char>,
    pub modules: Seq<ModuleView>,
}

impl View for Page {
    type V = PageView;

    open spec fn view(&self) -> PageView {
        PageView {
            uuid: self.uuid,
            content_uuid: self.content_uuid,
            id: self.id@,
            modules: self.modules@.map_values(|m: Module| m@),
        }
    }
}

/// A page without modules, whose content is its own.
pub open spec fn empty_page(uuid: Uuid, id: Seq<char>) -> PageView {
    PageView { uuid, content_uuid: uuid, id, modules: Seq::empty() }
}

impl Page {
    pub fn new(id: String) -> (r: Page)
        ensures
            r@ == empty_page(r.uuid, id@),
            random_marks(r.uuid.value),
    {
        let uuid = Uuid::new_v4();
        Page { uuid, content_uuid: uuid, id, modules: Vec::new() }
    }

    /// A page with one module "Module 1", itself with one Main section.
    pub(crate) fn seeded(id: String) -> (r: Page)
        ensures
            seeded_page(r@, id@),
    {
        let mut page = Page::new(id);
        let module = Module::seeded("Module 1".to_owned());
        let ghost m = module@;
        page.modules.push(module);
        assert(page@.modules =~= seq![m]);
        page
    }
}

impl Clone for Page {
    fn clone(&self) -> (r: Self)
        ensures
            r@ == self@,
    {
        let r = Page {
            uuid: self.uuid,
            content_uuid: self.content_uuid,
            id: self.id.clone(),
            modules: self.modules.clone(),
        };
        assert(r@.modules =~= self@.modules);
        r
    }
}

/// An asset: pages under one header.
#[derive(Debug)]
pub struct Asset {
    pub uuid: Uuid,
    pub id: String,
    pub meta: AssetMeta,
    pub pages: Vec<Page>,
}

/// The contents of an [`Asset`].
#[verifier::ext_equal]
pub struct AssetView {
    pub uuid: Uuid,
    pub id: Seq<char>,
    pub meta: AssetMetaView,
    pub pages: Seq<PageView>,
}

impl View for Asset {
    type V = AssetView;

    open spec fn view(&self) -> AssetView {
        AssetView {
            uuid: self.uuid,
            id: self.id@,
            meta: self.meta@,
            pages: self.pages@.map_values(|p: Page| p@),
        }
    }
}

/// An asset without pages.
pub open spec fn empty_asset(uuid: Uuid, id: Seq<char>) -> AssetView {
    AssetView { uuid, id, meta: blank_meta(), pages: Seq::empty() }
}

impl Asset {
    pub fn new(id: String) -> (r: Asset)
        ensures
            r@ == empty_asset(r.uuid, id@),
            random_marks(r.uuid.value),
    {
        Asset { uuid: Uuid::new_v4(), id, meta: AssetMeta::default(), pages: Vec::new() }
    }

    /// An asset with one page "Page 1", one module and one Main section.
    pub(crate) fn seeded(id: String) -> (r: Asset)
        ensures
            seeded_asset(r@, id@),
    {
        let mut asset = Asset::new(id);
        let page = Page::seeded("Page 1".to_owned());
        let ghost p = page@;
        asset.pages.push(page);
        assert(asset@.pages =~= seq![p]);
        asset
    }
}

impl Clone for Asset {
    fn clone(&self) -> (r: Self)
        ensures
            r@ == self@,
    {
        let r = Asset {
            uuid: self.uuid,
            id: self.id.clone(),
            meta: self.meta.clone(),
            pages: self.pages.clone(),
        };
        assert(r@.pages =~= self@.pages);
        r
    }
}

/// `m` is named `id`, is its own content, and holds one empty Main section.
pub open spec fn seeded_module(m: ModuleView, id: Seq<char>) -> bool {
    let s = m.sections[0];
    &&& m == (ModuleView { sections: seq![s], ..empty_module(m.uuid, id) })
    &&& s == empty_section(s.uuid, SectionKind::Main)
    &&& random_marks(m.uuid.value)
    &&& random_marks(s.uuid.value)
}

/// `p` is named `id`, is its own content, and holds one seeded module.
pub open spec fn seeded_page(p: PageView, id: Seq<char>) -> bool {
    let m = p.modules[0];
    &&& p == (PageView { modules: seq![m], ..empty_page(p.uuid, id) })
    &&& seeded_module(m, "Module 1"@)
    &&& random_marks(p.uuid.value)
}

/// `a` is named `id`, has a blank header and holds one seeded page.
pub open spec fn seeded_asset(a: AssetView, id: Seq<char>) -> bool {
    let p = a.pages[0];
    &&& a == (AssetView { pages: seq![p], ..empty_asset(a.uuid, id) })
    &&& seeded_page(p, "Page 1"@)
    &&& random_marks(a.uuid.value)
}

/// The whole tree.
#[derive(Debug)]
pub struct Project {
    pub assets: Vec<Asset>,
}

/// The contents of a [`Project`].
#[verifier::ext_equal]
pub struct ProjectView {
    pub assets: Seq<AssetView>,
}

impl View for Project {
    type V = ProjectView;

    open spec fn view(&self) -> ProjectView {
        ProjectView { assets: self.assets@.map_values(|a: Asset| a@) }
    }
}

impl Default for Project {
    fn default() -> (r: Self)
        ensures
            r@ == (ProjectView { assets: Seq::empty() }),
    {
        Project { assets: Vec::new() }
    }
}

impl Clone for Project {
    fn clone(&self) -> (r: Self)
        ensures
            r@ == self@,
    {
        let r = Project { assets: self.assets.clone() };
        assert(r@.assets =~= self@.assets);
        r
    }
}

/// `v` holds one seeded asset "Asset 1" and nothing else.
pub open spec fn default_project(v: ProjectView) -> bool {
    &&& v.assets =~= seq![v.assets[0]]
    &&& seeded_asset(v.assets[0], "Asset 1"@)
}

impl Project {
    pub fn is_empty(&self) -> (r: bool)
        ensures
            r == (self@.assets.len() == 0),
    {
        self.assets.is_empty()
    }

    /// A fresh project: one asset, one page, one module, one Main section.
    pub fn reset_to_default() -> (r: Project)
        ensures
            default_project(r@),
    {
        let mut p = Project::default();
        let asset = Asset::seeded("Asset 1".to_owned());
        let ghost a = asset@;
        p.assets.push(asset);
        assert(p@.assets =~= seq![a]);
        p
    }
}

} // verus!
