use vstd::prelude::*;

verus! {

/// One category of the archive: a game system and the directory that holds its games.
#[derive(Debug)]
pub struct System {
    /// Short code by which a user selects the system.
    pub label: String,
    /// Name shown in the report.
    pub display_name: String,
    /// Colour in which the name is shown.
    pub rgb: [u8; 3],
    /// Directory of the system, relative to the archive root.
    pub directory: String,
    /// Whether each game is a directory of parts rather than a single file.
    pub games_are_directories: bool,
}

impl System {
    /// What identifies a system: its directory and the shape of its games. The
    /// label, name and colour are cosmetic.
    pub open spec fn key(&self) -> (Seq<char>, bool) {
        (self.directory@, self.games_are_directories)
    }

    pub fn new(
        label: &str,
        display_name: &str,
        rgb: [u8; 3],
        dir_name: &str,
        games_are_directories: bool,
    ) -> (r: System)
        ensures
            r.label@ == label@,
            r.display_name@ == display_name@,
            r.rgb == rgb,
            r.directory@ == dir_name@,
            r.games_are_directories == games_are_directories,
    {
        System {
            label: label.to_owned(),
            display_name: display_name.to_owned(),
            rgb,
            directory: dir_name.to_owned(),
            games_are_directories,
        }
    }
}

impl Clone for System {
    fn clone(&self) -> (r: System)
        ensures
            r == *self,
    {
        System {
            label: self.label.clone(),
            display_name: self.display_name.clone(),
            rgb: self.rgb,
            directory: self.directory.clone(),
            games_are_directories: self.games_are_directories,
        }
    }
}

impl PartialEq for System {
    fn eq(&self, other: &System) -> (r: bool)
        ensures
            r == (self.key() == other.key()),
    {
        self.directory == other.directory && self.games_are_directories
            == other.games_are_directories
    }
}

impl vstd::std_specs::cmp::PartialEqSpecImpl for System {
    open spec fn obeys_eq_spec() -> bool {
        true
    }

    open spec fn eq_spec(&self, other: &System) -> bool {
        self.key() == other.key()
    }
}

impl Eq for System {

}

/// `s` has exactly these fields.
pub open spec fn is_system(
    s: System,
    label: Seq<char>,
    display_name: Seq<char>,
    rgb: [u8; 3],
    directory: Seq<char>,
    games_are_directories: bool,
) -> bool {
    &&& s.label@ == label
    &&& s.display_name@ == display_name
    &&& s.rgb == rgb
    &&& s.directory@ == directory
    &&& s.games_are_directories == games_are_directories
}

/// The built-in registry of systems, in the order in which reports list them.
pub fn generate_systems() -> (r: [System; 13])
    ensures
        is_system(r@[0], "3ds"@, "3DS"@, [215, 0, 0], "3ds"@, false),
        is_system(r@[1], "ds"@, "DS"@, [135, 215, 255], "ds"@, false),
        is_system(r@[2], "gb"@, "GB"@, [95, 135, 95], "gb"@, false),
        is_system(r@[3], "gba"@, "GBA"@, [255, 175, 255], "gba"@, false),
        is_system(r@[4], "gcn"@, "GCN"@, [135, 95, 255], "games"@, true),
        is_system(r@[5], "gen"@, "GEN"@, [88, 88, 88], "gen"@, false),
        is_system(r@[6], "n64"@, "N64"@, [0, 215, 135], "n64"@, false),
        is_system(r@[7], "nes"@, "NES"@, [215, 0, 0], "nes"@, false),
        is_system(r@[8], "ps1"@, "PS1"@, [178, 178, 178], "ps1"@, true),
        is_system(r@[9], "ps2"@, "PS2"@, [102, 102, 102], "ps2"@, false),
        is_system(r@[10], "psp"@, "PSP"@, [95, 135, 255], "psp"@, false),
        is_system(r@[11], "snes"@, "SNES"@, [95, 0, 255], "snes"@, false),
        is_system(r@[12], "wii"@, "WII"@, [0, 215, 255], "wbfs"@, true),
{
    [
        System::new("3ds", "3DS", [215, 0, 0], "3ds", false),
        System::new("ds", "DS", [135, 215, 255], "ds", false),
        System::new("gb", "GB", [95, 135, 95], "gb", false),
        System::new("gba", "GBA", [255, 175, 255], "gba", false),
        System::new("gcn", "GCN", [135, 95, 255], "games", true),
        System::new("gen", "GEN", [88, 88, 88], "gen", false),
        System::new("n64", "N64", [0, 215, 135], "n64", false),
        System::new("nes", "NES", [215, 0, 0], "nes", false),
        System::new("ps1", "PS1", [178, 178, 178], "ps1", true),
        System::new("ps2", "PS2", [102, 102, 102], "ps2", false),
        System::new("psp", "PSP", [95, 135, 255], "psp", false),
        System::new("snes", "SNES", [95, 0, 255], "snes", false),
        System::new("wii", "WII", [0, 215, 255], "wbfs", true),
    ]
}

/// Whether a system labelled `label` is wanted: every label is when no list is
/// given, else exactly the labels on the list.
pub open spec fn label_wanted(desired: Option<Seq<Seq<char>>>, label: Seq<char>) -> bool {
    match desired {
        Option::None => true,
        Option::Some(labels) => labels.contains(label),
    }
}

/// The labels of a list, as character sequences.
pub open spec fn labels_view(desired: Option<Vec<String>>) -> Option<Seq<Seq<char>>> {
    match desired {
        Option::None => Option::None,
        Option::Some(v) => Option::Some(v@.map_values(|l: String| l@)),
    }
}

/// The systems of `registry` that `desired` selects, in registry order.
pub open spec fn selected(registry: Seq<System>, desired: Option<Seq<Seq<char>>>) -> Seq<System> {
    registry.filter(|s: System| label_wanted(desired, s.label@))
}

/// Whether `label` is on the list `labels`; labels match exactly.
fn has_label(labels: &Vec<String>, label: &String) -> (r: bool)
    ensures
        r == labels@.map_values(|l: String| l@).contains(label@),
{
    let ghost lv = labels@.map_values(|l: String| l@);
    let mut i: usize = 0;
    while i < labels.len()
        invariant
            i <= labels@.len(),
            lv == labels@.map_values(|l: String| l@),
            forall|k: int| 0 <= k < i ==> lv[k] != label@,
        decreases labels@.len() - i,
    {
        if labels[i] == *label {
            assert(lv[i as int] == label@);
            return true;
        }
        i = i + 1;
    }
    false
}

/// The systems of `registry` whose label is on `desired`, or all of them when
/// `desired` is `None`, in registry order. Labels match exactly: a label that
/// names no system selects nothing.
pub fn select_systems(registry: &Vec<System>, desired: &Option<Vec<String>>) -> (r: Vec<System>)
    ensures
        r@ == selected(registry@, labels_view(*desired)),
{
    let ghost want = labels_view(*desired);
    let ghost pred = |s: System| label_wanted(want, s.label@);
    let mut r: Vec<System> = Vec::new();
    let mut i: usize = 0;
    while i < registry.len()
        invariant
            i <= registry@.len(),
            want == labels_view(*desired),
            pred == (|s: System| label_wanted(want, s.label@)),
            r@ == registry@.take(i as int).filter(pred),
        decreases registry@.len() - i,
    {
        let s = &registry[i];
        let keep = match desired {
            Option::None => true,
            Option::Some(labels) => has_label(labels, &s.label),
        };
        proof {
            reveal(Seq::filter);
            assert(registry@.take(i + 1).drop_last() =~= registry@.take(i as int));
        }
        if keep {
            r.push(s.clone());
        }
        i = i + 1;
    }
    assert(registry@.take(i as int) =~= registry@);
    r
}

/// A list of labels of which none names a system of the registry selects no system.
pub proof fn lemma_unknown_labels_select_nothing(registry: Seq<System>, labels: Seq<Seq<char>>)
    requires
        forall|i: int| 0 <= i < registry.len() ==> !labels.contains(#[trigger] registry[i].label@),
    ensures
        selected(registry, Option::Some(labels)).len() == 0,
    decreases registry.len(),
{
    if registry.len() > 0 {
        let rest = registry.drop_last();
        assert forall|i: int| 0 <= i < rest.len() implies !labels.contains(
            #[trigger] rest[i].label@,
        ) by {
            assert(rest[i] == registry[i]);
        }
        assert(!labels.contains(registry[registry.len() - 1].label@));
        lemma_unknown_labels_select_nothing(rest, labels);
        reveal(Seq::filter);
    }
}

} // verus!
