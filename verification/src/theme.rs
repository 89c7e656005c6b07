//! The colour palettes that come with the application, as plain RGB
//! triples.

use vstd::prelude::*;

verus! {

/// A colour as red, green and blue.
pub type Rgb = (u8, u8, u8);

/// A named palette: the colour of each role on screen.
pub struct PaletteSpec {
    pub name: String,
    pub insert: Rgb,
    pub edit: Rgb,
    pub reparent: Rgb,
    pub canvas: Rgb,
    pub pick: Rgb,
    pub link: Rgb,
    pub link_arrow: Rgb,
    pub arrow_dim: Rgb,
    pub node: Rgb,
    pub selected: Rgb,
    pub prefix: Rgb,
    pub dim: Rgb,
    pub status_todo: Rgb,
    pub status_progress: Rgb,
    pub status_done: Rgb,
    pub status_blocked: Rgb,
}

/// The names of the built-in palettes, in order.
pub open spec fn builtin_names() -> Seq<Seq<char>> {
    seq![
        "dracula"@,
        "solarized dark"@,
        "nord"@,
        "monokai"@,
        "github light"@,
        "everforest"@,
        "gruvbox"@,
        "catppuccin"@,
        "rose pine"@,
        "matte black"@,
    ]
}

/// The status colours every built-in palette shares: grey, amber, green
/// and red for to do, in progress, done and blocked.
pub open spec fn shared_status(p: PaletteSpec) -> bool {
    &&& p.status_todo == (142u8, 142u8, 142u8)
    &&& p.status_progress == (230u8, 142u8, 13u8)
    &&& p.status_done == (80u8, 250u8, 123u8)
    &&& p.status_blocked == (255u8, 85u8, 85u8)
}

/// The built-in palettes: dracula first, then the others in a fixed order,
/// all with the same status colours.
pub fn builtin_palettes() -> (r: Vec<PaletteSpec>)
    ensures
        r@.map_values(|p: PaletteSpec| p.name@) == builtin_names(),
        forall|i: int| 0 <= i < r@.len() ==> shared_status(#[trigger] r@[i]),
{
    proof {
        reveal_strlit("dracula");
        reveal_strlit("solarized dark");
        reveal_strlit("nord");
        reveal_strlit("monokai");
        reveal_strlit("github light");
        reveal_strlit("everforest");
        reveal_strlit("gruvbox");
        reveal_strlit("catppuccin");
        reveal_strlit("rose pine");
        reveal_strlit("matte black");
    }
    let mut r: Vec<PaletteSpec> = Vec::new();
    r.push(PaletteSpec {
        name: String::from_str("dracula"),
        insert: (80, 250, 123),
        edit: (241, 250, 140),
        reparent: (139, 233, 253),
        canvas: (98, 114, 164),
        pick: (255, 121, 198),
        link: (189, 147, 249),
        link_arrow: (80, 250, 123),
        arrow_dim: (68, 71, 90),
        node: (139, 233, 253),
        selected: (241, 250, 140),
        prefix: (98, 114, 164),
        dim: (98, 114, 164),
        status_todo: (142, 142, 142),
        status_progress: (230, 142, 13),
        status_done: (80, 250, 123),
        status_blocked: (255, 85, 85),
    });
    r.push(PaletteSpec {
        name: String::from_str("solarized dark"),
        insert: (133, 153, 0),
        edit: (181, 137, 0),
        reparent: (38, 139, 210),
        canvas: (101, 123, 131),
        pick: (211, 54, 130),
        link: (108, 113, 196),
        link_arrow: (133, 153, 0),
        arrow_dim: (7, 54, 66),
        node: (38, 139, 210),
        selected: (181, 137, 0),
        prefix: (101, 123, 131),
        dim: (88, 110, 117),
        status_todo: (142, 142, 142),
        status_progress: (230, 142, 13),
        status_done: (80, 250, 123),
        status_blocked: (255, 85, 85),
    });
    r.push(PaletteSpec {
        name: String::from_str("nord"),
        insert: (163, 190, 140),
        edit: (235, 203, 139),
        reparent: (136, 192, 208),
        canvas: (129, 161, 193),
        pick: (180, 142, 173),
        link: (143, 188, 187),
        link_arrow: (163, 190, 140),
        arrow_dim: (76, 86, 106),
        node: (136, 192, 208),
        selected: (235, 203, 139),
        prefix: (129, 161, 193),
        dim: (76, 86, 106),
        status_todo: (142, 142, 142),
        status_progress: (230, 142, 13),
        status_done: (80, 250, 123),
        status_blocked: (255, 85, 85),
    });
    r.push(PaletteSpec {
        name: String::from_str("monokai"),
        insert: (166, 226, 46),
        edit: (230, 219, 116),
        reparent: (102, 217, 239),
        canvas: (174, 129, 255),
        pick: (249, 38, 114),
        link: (253, 151, 31),
        link_arrow: (166, 226, 46),
        arrow_dim: (117, 113, 94),
        node: (102, 217, 239),
        selected: (230, 219, 116),
        prefix: (174, 129, 255),
        dim: (117, 113, 94),
        status_todo: (142, 142, 142),
        status_progress: (230, 142, 13),
        status_done: (80, 250, 123),
        status_blocked: (255, 85, 85),
    });
    r.push(PaletteSpec {
        name: String::from_str("github light"),
        insert: (40, 167, 69),
        edit: (255, 166, 0),
        reparent: (3, 102, 214),
        canvas: (36, 41, 46),
        pick: (234, 74, 170),
        link: (111, 66, 193),
        link_arrow: (40, 167, 69),
        arrow_dim: (225, 228, 232),
        node: (3, 102, 214),
        selected: (106, 115, 125),
        prefix: (209, 213, 218),
        dim: (149, 157, 165),
        status_todo: (142, 142, 142),
        status_progress: (230, 142, 13),
        status_done: (80, 250, 123),
        status_blocked: (255, 85, 85),
    });
    r.push(PaletteSpec {
        name: String::from_str("everforest"),
        insert: (167, 192, 128),
        edit: (219, 188, 127),
        reparent: (127, 187, 179),
        canvas: (133, 155, 125),
        pick: (214, 123, 145),
        link: (211, 134, 155),
        link_arrow: (167, 192, 128),
        arrow_dim: (75, 81, 82),
        node: (127, 187, 179),
        selected: (219, 188, 127),
        prefix: (133, 155, 125),
        dim: (122, 132, 122),
        status_todo: (142, 142, 142),
        status_progress: (230, 142, 13),
        status_done: (80, 250, 123),
        status_blocked: (255, 85, 85),
    });
    r.push(PaletteSpec {
        name: String::from_str("gruvbox"),
        insert: (184, 187, 38),
        edit: (250, 189, 47),
        reparent: (131, 165, 152),
        canvas: (146, 131, 116),
        pick: (251, 73, 52),
        link: (211, 134, 155),
        link_arrow: (184, 187, 38),
        arrow_dim: (60, 56, 54),
        node: (131, 165, 152),
        selected: (250, 189, 47),
        prefix: (146, 131, 116),
        dim: (168, 153, 132),
        status_todo: (142, 142, 142),
        status_progress: (230, 142, 13),
        status_done: (80, 250, 123),
        status_blocked: (255, 85, 85),
    });
    r.push(PaletteSpec {
        name: String::from_str("catppuccin"),
        insert: (166, 227, 161),
        edit: (249, 226, 175),
        reparent: (137, 180, 250),
        canvas: (148, 156, 187),
        pick: (245, 194, 231),
        link: (203, 166, 247),
        link_arrow: (166, 227, 161),
        arrow_dim: (88, 91, 112),
        node: (137, 180, 250),
        selected: (249, 226, 175),
        prefix: (148, 156, 187),
        dim: (108, 112, 134),
        status_todo: (142, 142, 142),
        status_progress: (230, 142, 13),
        status_done: (80, 250, 123),
        status_blocked: (255, 85, 85),
    });
    r.push(PaletteSpec {
        name: String::from_str("rose pine"),
        insert: (156, 207, 216),
        edit: (246, 193, 119),
        reparent: (49, 116, 143),
        canvas: (110, 106, 134),
        pick: (235, 111, 145),
        link: (196, 167, 231),
        link_arrow: (156, 207, 216),
        arrow_dim: (31, 29, 46),
        node: (156, 207, 216),
        selected: (246, 193, 119),
        prefix: (110, 106, 134),
        dim: (144, 140, 170),
        status_todo: (142, 142, 142),
        status_progress: (230, 142, 13),
        status_done: (80, 250, 123),
        status_blocked: (255, 85, 85),
    });
    r.push(PaletteSpec {
        name: String::from_str("matte black"),
        insert: (255, 193, 7),
        edit: (230, 142, 13),
        reparent: (190, 190, 190),
        canvas: (138, 138, 141),
        pick: (211, 95, 95),
        link: (234, 234, 234),
        link_arrow: (255, 193, 7),
        arrow_dim: (51, 51, 51),
        node: (190, 190, 190),
        selected: (255, 193, 7),
        prefix: (138, 138, 141),
        dim: (51, 51, 51),
        status_todo: (142, 142, 142),
        status_progress: (230, 142, 13),
        status_done: (80, 250, 123),
        status_blocked: (255, 85, 85),
    });
    proof {
        assert(r@.map_values(|p: PaletteSpec| p.name@) =~= builtin_names());
    }
    r
}

} // verus!
