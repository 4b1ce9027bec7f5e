//! Turning a level description into the backdrop sprites it shows.

use crate::components::RenderLayer;
use crate::systems::render::{is_render_order, law_sorted_sprites_keep_their_order};
use vstd::prelude::*;
use vstd::string::StrSliceExecFns;
use vstd::string::StringExecFns;

verus! {

/// `s` with every `../` removed, scanning from the left as `str::replace`
/// does: a match is cut out and the scan goes on after it.
pub open spec fn without_parent_refs(s: Seq<char>) -> Seq<char>
    decreases s.len(),
{
    if s.len() == 0 {
        Seq::empty()
    } else if s.len() >= 3 && s[0] == '.' && s[1] == '.' && s[2] == '/' {
        without_parent_refs(s.skip(3))
    } else {
        seq![s[0]] + without_parent_refs(s.skip(1))
    }
}

/// Removes every `../` from a texture path in the level file, so that it
/// names a file relative to the game's root.
pub fn strip_parent_refs(path: &str) -> (out: String)
    ensures
        out@ == without_parent_refs(path@),
{
    let mut chars: Vec<char> = Vec::new();
    for c in it: path.chars()
        invariant
            chars@ == it.seq().take(it.index() as int),
    {
        chars.push(c);
    }
    assert(chars@ == path@);
    let n = chars.len();
    let mut out = String::new();
    let mut start: usize = 0;
    let mut i: usize = 0;
    while i < n
        invariant
            n == chars.len(),
            chars@ == path@,
            start <= i <= n,
            out@ + path@.subrange(start as int, i as int) + without_parent_refs(path@.skip(i as int))
                == without_parent_refs(path@),
        decreases n - i,
    {
        let ghost rest = path@.skip(i as int);
        if n - i >= 3 && chars[i] == '.' && chars[i + 1] == '.' && chars[i + 2] == '/' {
            assert(rest.skip(3) =~= path@.skip(i + 3));
            out.append(path.substring_char(start, i));
            i = i + 3;
            start = i;
            assert(path@.subrange(start as int, i as int) =~= Seq::<char>::empty());
        } else {
            assert(rest.skip(1) =~= path@.skip(i + 1));
            assert(path@.subrange(start as int, i + 1) =~= path@.subrange(start as int, i as int)
                + seq![path@[i as int]]);
            i = i + 1;
        }
    }
    out.append(path.substring_char(start, n));
    assert(path@.skip(n as int) =~= Seq::<char>::empty());
    out
}

/// The texture paths a level file names, in the file's own order.
pub struct LevelLayout {
    /// The sky picture, drawn furthest back.
    pub background: String,
    /// The map floor.
    pub bottom_foreground: Option<String>,
    /// The strip along the top of the map.
    pub top_foreground: Option<String>,
    /// The fixed parallax picture behind the moving layers.
    pub parallax_fix: Option<String>,
    /// The textures of the parallax layers behind the ships.
    pub parallaxes: Option<Vec<String>>,
    /// The textures of the parallax layers in front of the ships.
    pub foregrounds: Option<Vec<String>>,
}

/// Which part of the level a backdrop sprite shows.
#[derive(Clone, Copy, Debug, PartialEq, Eq, Structural)]
pub enum BackdropRole {
    /// The sky, without parallax.
    Sky,
    /// The fixed parallax picture.
    ParallaxFix,
    /// The parallax layer behind the ships with this index in the file.
    Parallax(usize),
    /// The map floor.
    BottomForeground,
    /// The strip along the top of the map.
    TopForeground,
    /// The parallax layer in front of the ships with this index in the file.
    ForegroundParallax(usize),
}

/// One backdrop sprite to spawn for a level.
pub struct Backdrop {
    pub role: BackdropRole,
    /// The texture's path, relative to the game's root.
    pub texture_path: String,
    pub layer: RenderLayer,
    /// The parallax layer number, for the sprites that scroll with parallax.
    pub parallax_layer: Option<i32>,
}

/// A backdrop sprite as a value.
pub struct BackdropView {
    pub role: BackdropRole,
    pub texture_path: Seq<char>,
    pub layer: RenderLayer,
    pub parallax_layer: Option<i32>,
}

impl View for Backdrop {
    type V = BackdropView;

    open spec fn view(&self) -> BackdropView {
        BackdropView {
            role: self.role,
            texture_path: self.texture_path@,
            layer: self.layer,
            parallax_layer: self.parallax_layer,
        }
    }
}

/// The parallax layer number of the background parallax layer `i`.
pub open spec fn back_parallax_depth(i: int) -> int {
    -5 + i
}

/// The parallax layer number of the foreground parallax layer `i`.
pub open spec fn front_parallax_depth(i: int) -> int {
    5 + i
}

/// The sprite for an optional picture, if the level has it.
pub open spec fn optional_backdrop(
    picture: Option<String>,
    role: BackdropRole,
    layer: RenderLayer,
    parallax_layer: int,
) -> Seq<BackdropView> {
    match picture {
        Some(p) => seq![
            BackdropView {
                role,
                texture_path: without_parent_refs(p@),
                layer,
                parallax_layer: Some(parallax_layer as i32),
            },
        ],
        None => Seq::empty(),
    }
}

/// The sprites of the background parallax layers: the first on
/// `Parallax1`, the others on `Parallax2`.
pub open spec fn back_parallax_backdrops(textures: Option<Vec<String>>) -> Seq<BackdropView> {
    match textures {
        Some(v) => Seq::new(
            v.len() as nat,
            |i: int|
                BackdropView {
                    role: BackdropRole::Parallax(i as usize),
                    texture_path: without_parent_refs(v@[i]@),
                    layer: if i == 0 {
                        RenderLayer::Parallax1
                    } else {
                        RenderLayer::Parallax2
                    },
                    parallax_layer: Some(back_parallax_depth(i) as i32),
                },
        ),
        None => Seq::empty(),
    }
}

/// The sprites of the foreground parallax layers, all on `Foreground`.
pub open spec fn front_parallax_backdrops(textures: Option<Vec<String>>) -> Seq<BackdropView> {
    match textures {
        Some(v) => Seq::new(
            v.len() as nat,
            |i: int|
                BackdropView {
                    role: BackdropRole::ForegroundParallax(i as usize),
                    texture_path: without_parent_refs(v@[i]@),
                    layer: RenderLayer::Foreground,
                    parallax_layer: Some(front_parallax_depth(i) as i32),
                },
        ),
        None => Seq::empty(),
    }
}

/// The backdrop sprites of a level, from the furthest back: the sky, the
/// fixed parallax picture, the background parallax layers, the floor, the
/// top strip, and the foreground parallax layers.
pub open spec fn level_backdrops(level: LevelLayout) -> Seq<BackdropView> {
    seq![
        BackdropView {
            role: BackdropRole::Sky,
            texture_path: without_parent_refs(level.background@),
            layer: RenderLayer::Background,
            parallax_layer: None,
        },
    ] + optional_backdrop(level.parallax_fix, BackdropRole::ParallaxFix, RenderLayer::ParallaxFix, -9)
        + back_parallax_backdrops(level.parallaxes) + optional_backdrop(
        level.bottom_foreground,
        BackdropRole::BottomForeground,
        RenderLayer::Foreground,
        -1,
    ) + optional_backdrop(
        level.top_foreground,
        BackdropRole::TopForeground,
        RenderLayer::Foreground,
        10,
    ) + front_parallax_backdrops(level.foregrounds)
}

/// The layer lists are short enough that their parallax layer numbers fit
/// in an `i32`.
pub open spec fn layer_counts_fit(level: LevelLayout) -> bool {
    &&& (level.parallaxes matches Some(v) ==> v.len() <= i32::MAX + 1)
    &&& (level.foregrounds matches Some(v) ==> v.len() <= i32::MAX - 4)
}

/// Whether the layer lists of `level` are short enough for [`plan_backdrops`].
pub fn layer_counts_fit_check(level: &LevelLayout) -> (ok: bool)
    ensures
        ok == layer_counts_fit(*level),
{
    let back_ok = match &level.parallaxes {
        Some(v) => v.len() <= 0x8000_0000,
        None => true,
    };
    let front_ok = match &level.foregrounds {
        Some(v) => v.len() <= 0x7fff_fffb,
        None => true,
    };
    back_ok && front_ok
}

/// The backdrop sprites that `level` shows, from the furthest back, each
/// with its texture path cleaned of `../`.
pub fn plan_backdrops(level: &LevelLayout) -> (plan: Vec<Backdrop>)
    requires
        layer_counts_fit(*level),
    ensures
        plan@.map_values(|b: Backdrop| b@) == level_backdrops(*level),
{
    let mut plan: Vec<Backdrop> = Vec::new();
    plan.push(
        Backdrop {
            role: BackdropRole::Sky,
            texture_path: strip_parent_refs(level.background.as_str()),
            layer: RenderLayer::Background,
            parallax_layer: None,
        },
    );
    push_optional(&mut plan, &level.parallax_fix, BackdropRole::ParallaxFix, RenderLayer::ParallaxFix, -9);
    if let Some(textures) = &level.parallaxes {
        let ghost base = plan@.map_values(|b: Backdrop| b@);
        let n = textures.len();
        for i in 0..n
            invariant
                n == textures.len(),
                n <= i32::MAX + 1,
                plan@.map_values(|b: Backdrop| b@) =~= base + back_parallax_backdrops(
                    Some(*textures),
                ).take(i as int),
        {
            let layer = if i == 0 {
                RenderLayer::Parallax1
            } else {
                RenderLayer::Parallax2
            };
            let depth: i32 = (i as i32) - 5;
            let ghost old_plan = plan@.map_values(|b: Backdrop| b@);
            plan.push(
                Backdrop {
                    role: BackdropRole::Parallax(i),
                    texture_path: strip_parent_refs(textures[i].as_str()),
                    layer,
                    parallax_layer: Some(depth),
                },
            );
            let ghost pushed = plan@[plan@.len() - 1]@;
            assert(pushed == back_parallax_backdrops(Some(*textures))[i as int]);
            assert(plan@.map_values(|b: Backdrop| b@) =~= old_plan.push(pushed));
            assert(back_parallax_backdrops(Some(*textures)).take(i + 1) =~= back_parallax_backdrops(
                Some(*textures),
            ).take(i as int).push(back_parallax_backdrops(Some(*textures))[i as int]));
        }
    }
    push_optional(
        &mut plan,
        &level.bottom_foreground,
        BackdropRole::BottomForeground,
        RenderLayer::Foreground,
        -1,
    );
    push_optional(
        &mut plan,
        &level.top_foreground,
        BackdropRole::TopForeground,
        RenderLayer::Foreground,
        10,
    );
    if let Some(textures) = &level.foregrounds {
        let ghost base = plan@.map_values(|b: Backdrop| b@);
        let n = textures.len();
        for i in 0..n
            invariant
                n == textures.len(),
                n <= i32::MAX - 4,
                plan@.map_values(|b: Backdrop| b@) =~= base + front_parallax_backdrops(
                    Some(*textures),
                ).take(i as int),
        {
            let depth: i32 = (i as i32) + 5;
            let ghost old_plan = plan@.map_values(|b: Backdrop| b@);
            plan.push(
                Backdrop {
                    role: BackdropRole::ForegroundParallax(i),
                    texture_path: strip_parent_refs(textures[i].as_str()),
                    layer: RenderLayer::Foreground,
                    parallax_layer: Some(depth),
                },
            );
            let ghost pushed = plan@[plan@.len() - 1]@;
            assert(pushed == front_parallax_backdrops(Some(*textures))[i as int]);
            assert(plan@.map_values(|b: Backdrop| b@) =~= old_plan.push(pushed));
            assert(front_parallax_backdrops(Some(*textures)).take(i + 1) =~= front_parallax_backdrops(
                Some(*textures),
            ).take(i as int).push(front_parallax_backdrops(Some(*textures))[i as int]));
        }
    }
    plan
}

/// Appends the sprite for an optional picture, if there is one.
fn push_optional(
    plan: &mut Vec<Backdrop>,
    picture: &Option<String>,
    role: BackdropRole,
    layer: RenderLayer,
    parallax_layer: i32,
)
    ensures
        final(plan)@.map_values(|b: Backdrop| b@) == old(plan)@.map_values(|b: Backdrop| b@)
            + optional_backdrop(*picture, role, layer, parallax_layer as int),
{
    if let Some(p) = picture {
        plan.push(
            Backdrop {
                role,
                texture_path: strip_parent_refs(p.as_str()),
                layer,
                parallax_layer: Some(parallax_layer),
            },
        );
    }
    assert(final(plan)@.map_values(|b: Backdrop| b@) =~= old(plan)@.map_values(|b: Backdrop| b@)
        + optional_backdrop(*picture, role, layer, parallax_layer as int));
}

/// A path holds `../` at position `i`.
pub open spec fn parent_ref_at(s: Seq<char>, i: int) -> bool {
    0 <= i && i + 3 <= s.len() && s[i] == '.' && s[i + 1] == '.' && s[i + 2] == '/'
}

/// A path with no `../` in it is kept as it is.
pub proof fn law_plain_path_is_kept(s: Seq<char>)
    requires
        forall|i: int| !#[trigger] parent_ref_at(s, i),
    ensures
        without_parent_refs(s) == s,
    decreases s.len(),
{
    if s.len() > 0 {
        assert(!parent_ref_at(s, 0));
        let t = s.skip(1);
        assert forall|i: int| !#[trigger] parent_ref_at(t, i) by {
            assert(!parent_ref_at(s, i + 1));
        }
        law_plain_path_is_kept(t);
        assert(seq![s[0]] + t =~= s);
    }
}

/// A leading `../` is dropped and the rest of the path cleaned.
pub proof fn law_leading_parent_ref_is_dropped(s: Seq<char>)
    ensures
        without_parent_refs(seq!['.', '.', '/'] + s) == without_parent_refs(s),
{
    let t = seq!['.', '.', '/'] + s;
    assert(t.skip(3) =~= s);
}

/// The backdrops of a level come from the furthest back: their layers never
/// go backwards, so spawning them in order draws them in order. The sky
/// always comes first.
pub proof fn law_backdrops_back_to_front(level: LevelLayout)
    ensures
        level_backdrops(level).len() >= 1,
        level_backdrops(level)[0].role == BackdropRole::Sky,
        forall|k: int, l: int|
            0 <= k < l < level_backdrops(level).len() ==> (#[trigger] level_backdrops(level)[k]).layer.depth()
                <= (#[trigger] level_backdrops(level)[l]).layer.depth(),
{
    let sky = seq![
        BackdropView {
            role: BackdropRole::Sky,
            texture_path: without_parent_refs(level.background@),
            layer: RenderLayer::Background,
            parallax_layer: None,
        },
    ];
    let fix = optional_backdrop(level.parallax_fix, BackdropRole::ParallaxFix, RenderLayer::ParallaxFix, -9);
    let back = back_parallax_backdrops(level.parallaxes);
    let bottom = optional_backdrop(
        level.bottom_foreground,
        BackdropRole::BottomForeground,
        RenderLayer::Foreground,
        -1,
    );
    let top = optional_backdrop(level.top_foreground, BackdropRole::TopForeground, RenderLayer::Foreground, 10);
    let front = front_parallax_backdrops(level.foregrounds);
    let all = level_backdrops(level);
    assert(all =~= sky + fix + back + bottom + top + front);
    let a = sky.len() + fix.len();
    let b = a + back.len();
    assert forall|k: int| 0 <= k < all.len() implies {
        &&& k < 1 ==> all[k].layer.depth() == 0
        &&& 1 <= k < a ==> all[k].layer.depth() == 1
        &&& a <= k < b ==> (all[k].layer.depth() == 2 || all[k].layer.depth() == 3)
        &&& a < k < b ==> all[k].layer.depth() == 3
        &&& b <= k ==> all[k].layer.depth() == 5
    } by {
        if a <= k < b {
            assert(all[k] == back[k - a]);
        }
    }
    assert forall|k: int, l: int|
        0 <= k < l < all.len() implies (#[trigger] all[k]).layer.depth() <= (#[trigger] all[l]).layer.depth() by {
        if a <= k < b && a <= l < b {
            assert(l > a);
        }
    }
}

/// Drawing a level's backdrops in render order draws them in the order
/// they were planned.
pub proof fn law_backdrops_drawn_as_planned(level: LevelLayout, order: Seq<usize>)
    requires
        is_render_order(level_backdrops(level).map_values(|b: BackdropView| b.layer), order),
    ensures
        forall|k: int| 0 <= k < order.len() ==> #[trigger] order[k] == k,
{
    let layers = level_backdrops(level).map_values(|b: BackdropView| b.layer);
    law_backdrops_back_to_front(level);
    assert forall|k: int, l: int| 0 <= k < l < layers.len() implies (#[trigger] layers[k]).depth()
        <= (#[trigger] layers[l]).depth() by {
        assert(layers[k] == level_backdrops(level)[k].layer);
        assert(layers[l] == level_backdrops(level)[l].layer);
    }
    law_sorted_sprites_keep_their_order(layers, order);
}

/// The number of sprites an optional picture gives: one if the level has it.
pub open spec fn picture_count(picture: Option<String>) -> int {
    if picture is Some { 1 } else { 0 }
}

/// The number of layers in an optional list.
pub open spec fn layer_count(layers: Option<Vec<String>>) -> int {
    match layers {
        Some(v) => v.len() as int,
        None => 0,
    }
}

/// A level gets exactly one backdrop for its sky, one for each picture it
/// has and one for each parallax layer it lists, in file order: the `k`-th
/// background layer sits right after the sky and the fixed picture, carries
/// the cleaned texture of entry `k`, is on `Parallax1` if first and
/// `Parallax2` after, and has parallax layer `k - 5`; the `k`-th foreground
/// layer comes last, on `Foreground`, with parallax layer `k + 5`.
pub proof fn law_one_backdrop_per_entry(level: LevelLayout)
    requires
        layer_counts_fit(level),
    ensures
        level_backdrops(level).len() == 1 + picture_count(level.parallax_fix) + layer_count(
            level.parallaxes,
        ) + picture_count(level.bottom_foreground) + picture_count(level.top_foreground)
            + layer_count(level.foregrounds),
        level_backdrops(level)[0].texture_path == without_parent_refs(level.background@),
        level_backdrops(level)[0].layer == RenderLayer::Background,
        level_backdrops(level)[0].parallax_layer is None,
        level.parallax_fix matches Some(p) ==> {
            let b = level_backdrops(level)[1];
            &&& b.role == BackdropRole::ParallaxFix
            &&& b.texture_path == without_parent_refs(p@)
            &&& b.layer == RenderLayer::ParallaxFix
            &&& b.parallax_layer == Some(-9i32)
        },
        level.parallaxes matches Some(v) ==> forall|k: int|
            0 <= k < v.len() ==> {
                let b = #[trigger] level_backdrops(level)[1 + picture_count(level.parallax_fix) + k];
                &&& b.role == BackdropRole::Parallax(k as usize)
                &&& b.texture_path == without_parent_refs(v@[k]@)
                &&& b.layer == (if k == 0 { RenderLayer::Parallax1 } else { RenderLayer::Parallax2 })
                &&& b.parallax_layer matches Some(d) && d == k - 5
            },
        level.bottom_foreground matches Some(p) ==> {
            let b = level_backdrops(level)[1 + picture_count(level.parallax_fix) + layer_count(
                level.parallaxes,
            )];
            &&& b.role == BackdropRole::BottomForeground
            &&& b.texture_path == without_parent_refs(p@)
            &&& b.layer == RenderLayer::Foreground
            &&& b.parallax_layer == Some(-1i32)
        },
        level.top_foreground matches Some(p) ==> {
            let b = level_backdrops(level)[1 + picture_count(level.parallax_fix) + layer_count(
                level.parallaxes,
            ) + picture_count(level.bottom_foreground)];
            &&& b.role == BackdropRole::TopForeground
            &&& b.texture_path == without_parent_refs(p@)
            &&& b.layer == RenderLayer::Foreground
            &&& b.parallax_layer == Some(10i32)
        },
        level.foregrounds matches Some(v) ==> forall|k: int|
            0 <= k < v.len() ==> {
                let b = #[trigger] level_backdrops(level)[1 + picture_count(level.parallax_fix)
                    + layer_count(level.parallaxes) + picture_count(level.bottom_foreground)
                    + picture_count(level.top_foreground) + k];
                &&& b.role == BackdropRole::ForegroundParallax(k as usize)
                &&& b.texture_path == without_parent_refs(v@[k]@)
                &&& b.layer == RenderLayer::Foreground
                &&& b.parallax_layer matches Some(d) && d == k + 5
            },
{
    let sky = seq![
        BackdropView {
            role: BackdropRole::Sky,
            texture_path: without_parent_refs(level.background@),
            layer: RenderLayer::Background,
            parallax_layer: None,
        },
    ];
    let fix = optional_backdrop(level.parallax_fix, BackdropRole::ParallaxFix, RenderLayer::ParallaxFix, -9);
    let back = back_parallax_backdrops(level.parallaxes);
    let bottom = optional_backdrop(
        level.bottom_foreground,
        BackdropRole::BottomForeground,
        RenderLayer::Foreground,
        -1,
    );
    let top = optional_backdrop(level.top_foreground, BackdropRole::TopForeground, RenderLayer::Foreground, 10);
    let front = front_parallax_backdrops(level.foregrounds);
    let all = level_backdrops(level);
    assert(all =~= sky + fix + back + bottom + top + front);
    assert(fix.len() == picture_count(level.parallax_fix));
    assert(back.len() == layer_count(level.parallaxes));
    assert(bottom.len() == picture_count(level.bottom_foreground));
    assert(top.len() == picture_count(level.top_foreground));
    assert(front.len() == layer_count(level.foregrounds));
    let a: int = 1 + fix.len() as int;
    let b: int = a + back.len();
    let c: int = b + bottom.len();
    let d: int = c + top.len();
    if level.parallaxes is Some {
        assert forall|k: int| 0 <= k < back.len() implies #[trigger] all[a + k] == back[k] by {}
    }
    if level.bottom_foreground is Some {
        assert(all[b] == bottom[0]);
    }
    if level.top_foreground is Some {
        assert(all[c] == top[0]);
    }
    if level.foregrounds is Some {
        assert forall|k: int| 0 <= k < front.len() implies #[trigger] all[d + k] == front[k] by {}
    }
}

/// A `../` after a stretch with none is cut out, and what follows it is
/// cleaned in turn: `a/../b` keeps `a/` and cleans `b`.
pub proof fn law_inner_parent_ref_is_cut(a: Seq<char>, b: Seq<char>)
    requires
        forall|i: int| !#[trigger] parent_ref_at(a, i),
    ensures
        without_parent_refs(a + seq!['.', '.', '/'] + b) == a + without_parent_refs(b),
    decreases a.len(),
{
    let s = a + seq!['.', '.', '/'] + b;
    if a.len() == 0 {
        assert(s =~= seq!['.', '.', '/'] + b);
        law_leading_parent_ref_is_dropped(b);
    } else {
        assert(!parent_ref_at(a, 0));
        assert(s[0] == a[0]);
        if a.len() >= 3 {
            assert(s[1] == a[1] && s[2] == a[2]);
        } else if a.len() == 2 {
            assert(s[2] == '.');
        } else {
            assert(s[1] == '.' && s[2] == '.');
        }
        let t = a.skip(1);
        assert forall|i: int| !#[trigger] parent_ref_at(t, i) by {
            assert(!parent_ref_at(a, i + 1));
        }
        law_inner_parent_ref_is_cut(t, b);
        assert(s.skip(1) =~= t + seq!['.', '.', '/'] + b);
        assert(seq![a[0]] + t =~= a);
        assert(seq![a[0]] + (t + without_parent_refs(b)) =~= a + without_parent_refs(b));
    }
}

} // verus!
