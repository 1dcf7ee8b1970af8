//! What a game configures before play: its zones, its action templates and
//! its first phase.

use super::player::PlayerId;
use vstd::prelude::*;

verus! {

/// Identifier of a zone.
#[derive(Clone, Copy, Debug, PartialEq, Eq, Hash, Structural)]
pub struct ZoneId(pub u16);

impl ZoneId {
    /// The identifier as text.
    pub fn to_string(&self) -> (text: String)
        ensures
            text@ == "Zone("@ + crate::base::text::decimal(self.0 as nat) + ")"@,
    {
        crate::base::text::labelled("Zone(", self.0 as u64, ")")
    }

    /// A zone identifier.
    pub fn new(id: u16) -> (zone: Self)
        ensures
            zone.0 == id,
    {
        ZoneId(id)
    }

    /// The raw number.
    pub fn raw(self) -> (raw: u16)
        ensures
            raw == self.0,
    {
        self.0
    }
}

/// Who may see the cards of a zone.
#[derive(Clone, Copy, Debug, PartialEq, Eq, Structural)]
pub enum ZoneVisibility {
    /// Everyone.
    Public,
    /// Only the zone's owner.
    OwnerOnly,
    /// No one.
    Hidden,
    /// The game decides.
    Custom,
}

/// Configuration of one zone.
#[derive(Clone, Debug)]
pub struct ZoneConfig {
    pub id: ZoneId,
    pub name: String,
    pub owner: Option<PlayerId>,
    pub visibility: ZoneVisibility,
    pub ordered: bool,
    pub max_cards: Option<usize>,
}

impl ZoneConfig {
    /// A public, unordered, unowned zone without a card limit.
    pub fn new(id: ZoneId, name: &str) -> (zone: Self)
        ensures
            zone.id == id,
            zone.name@ == name@,
            zone.owner is None,
            zone.visibility == ZoneVisibility::Public,
            !zone.ordered,
            zone.max_cards is None,
    {
        ZoneConfig {
            id,
            name: name.to_owned(),
            owner: None,
            visibility: ZoneVisibility::Public,
            ordered: false,
            max_cards: None,
        }
    }

    /// The same zone, owned by `owner`.
    pub fn with_owner(self, owner: PlayerId) -> (zone: Self)
        ensures
            zone == (ZoneConfig { owner: Some(owner), ..self }),
    {
        let mut this = self;
        this.owner = Some(owner);
        this
    }

    /// The same zone, visible to its owner only.
    pub fn owner_only(self) -> (zone: Self)
        ensures
            zone == (ZoneConfig { visibility: ZoneVisibility::OwnerOnly, ..self }),
    {
        let mut this = self;
        this.visibility = ZoneVisibility::OwnerOnly;
        this
    }

    /// The same zone, visible to no one.
    pub fn hidden(self) -> (zone: Self)
        ensures
            zone == (ZoneConfig { visibility: ZoneVisibility::Hidden, ..self }),
    {
        let mut this = self;
        this.visibility = ZoneVisibility::Hidden;
        this
    }

    /// The same zone, keeping its cards in order.
    pub fn ordered(self) -> (zone: Self)
        ensures
            zone == (ZoneConfig { ordered: true, ..self }),
    {
        let mut this = self;
        this.ordered = true;
        this
    }

    /// The same zone, holding at most `max` cards.
    pub fn with_max_cards(self, max: usize) -> (zone: Self)
        ensures
            zone == (ZoneConfig { max_cards: Some(max), ..self }),
    {
        let mut this = self;
        this.max_cards = Some(max);
        this
    }
}

/// Identifier of an action template.
#[derive(Clone, Copy, Debug, PartialEq, Eq, Hash, Structural)]
pub struct TemplateId(pub u16);

impl TemplateId {
    /// The identifier as text.
    pub fn to_string(&self) -> (text: String)
        ensures
            text@ == "Template("@ + crate::base::text::decimal(self.0 as nat) + ")"@,
    {
        crate::base::text::labelled("Template(", self.0 as u64, ")")
    }

    /// A template identifier.
    pub fn new(id: u16) -> (template: Self)
        ensures
            template.0 == id,
    {
        TemplateId(id)
    }

    /// The raw number.
    pub fn raw(self) -> (raw: u16)
        ensures
            raw == self.0,
    {
        self.0
    }
}

/// Configuration of one action template.
#[derive(Clone, Debug)]
pub struct TemplateConfig {
    pub id: TemplateId,
    pub name: String,
    pub pointer_count: usize,
    pub variable_pointers: bool,
}

impl TemplateConfig {
    /// A template that takes exactly `pointer_count` pointers.
    pub fn new(id: TemplateId, name: &str, pointer_count: usize) -> (template: Self)
        ensures
            template.id == id,
            template.name@ == name@,
            template.pointer_count == pointer_count,
            !template.variable_pointers,
    {
        TemplateConfig { id, name: name.to_owned(), pointer_count, variable_pointers: false }
    }

    /// A template that takes no pointers.
    pub fn no_args(id: TemplateId, name: &str) -> (template: Self)
        ensures
            template.id == id,
            template.name@ == name@,
            template.pointer_count == 0,
            !template.variable_pointers,
    {
        Self::new(id, name, 0)
    }

    /// The same template, taking any number of pointers.
    pub fn with_variable_pointers(self) -> (template: Self)
        ensures
            template == (TemplateConfig { variable_pointers: true, ..self }),
    {
        let mut this = self;
        this.variable_pointers = true;
        this
    }
}

/// Identifier of a phase of a turn.
#[derive(Clone, Copy, Debug, PartialEq, Eq, Hash, Structural)]
pub struct PhaseId(pub u32);

impl PhaseId {
    /// A phase identifier.
    pub fn new(id: u32) -> (phase: Self)
        ensures
            phase.0 == id,
    {
        PhaseId(id)
    }
}

impl Default for PhaseId {
    fn default() -> (phase: Self)
        ensures
            phase.0 == 0,
    {
        PhaseId(0)
    }
}

/// Configuration of a whole game.
#[derive(Clone, Debug)]
pub struct GameConfig {
    pub player_count: usize,
    pub zones: Vec<ZoneConfig>,
    pub templates: Vec<TemplateConfig>,
    pub initial_phase: PhaseId,
}

impl GameConfig {
    /// A configuration for `player_count` players with no zones and no
    /// templates, starting in phase 0.
    pub fn new(player_count: usize) -> (config: Self)
        requires
            0 < player_count <= 255,
        ensures
            config.player_count == player_count,
            config.zones@.len() == 0,
            config.templates@.len() == 0,
            config.initial_phase.0 == 0,
    {
        GameConfig {
            player_count,
            zones: Vec::new(),
            templates: Vec::new(),
            initial_phase: PhaseId(0),
        }
    }

    /// The same configuration with one more zone, added last.
    pub fn with_zone(self, zone: ZoneConfig) -> (config: Self)
        ensures
            config.zones@ == self.zones@.push(zone),
            config.player_count == self.player_count,
            config.templates == self.templates,
            config.initial_phase == self.initial_phase,
    {
        let mut this = self;
        this.zones.push(zone);
        this
    }

    /// The same configuration with one more template, added last.
    pub fn with_template(self, template: TemplateConfig) -> (config: Self)
        ensures
            config.templates@ == self.templates@.push(template),
            config.player_count == self.player_count,
            config.zones == self.zones,
            config.initial_phase == self.initial_phase,
    {
        let mut this = self;
        this.templates.push(template);
        this
    }

    /// The same configuration, starting in `phase`.
    pub fn with_initial_phase(self, phase: PhaseId) -> (config: Self)
        ensures
            config == (GameConfig { initial_phase: phase, ..self }),
    {
        let mut this = self;
        this.initial_phase = phase;
        this
    }

    /// The first zone configured under `id`.
    pub fn get_zone(&self, id: ZoneId) -> (found: Option<&ZoneConfig>)
        ensures
            match found {
                Some(zone) => exists|i: int|
                    0 <= i < self.zones@.len() && self.zones@[i] == *zone && zone.id == id
                        && forall|j: int| 0 <= j < i ==> (#[trigger] self.zones@[j]).id != id,
                None => forall|i: int|
                    0 <= i < self.zones@.len() ==> (#[trigger] self.zones@[i]).id != id,
            },
    {
        let mut next: usize = 0;
        while next < self.zones.len()
            invariant
                next <= self.zones@.len(),
                forall|j: int| 0 <= j < next ==> (#[trigger] self.zones@[j]).id != id,
            decreases self.zones@.len() - next,
        {
            if self.zones[next].id == id {
                return Some(&self.zones[next]);
            }
            next = next + 1;
        }
        None
    }

    /// The first template configured under `id`.
    pub fn get_template(&self, id: TemplateId) -> (found: Option<&TemplateConfig>)
        ensures
            match found {
                Some(template) => exists|i: int|
                    0 <= i < self.templates@.len() && self.templates@[i] == *template
                        && template.id == id && forall|j: int|
                        0 <= j < i ==> (#[trigger] self.templates@[j]).id != id,
                None => forall|i: int|
                    0 <= i < self.templates@.len() ==> (#[trigger] self.templates@[i]).id != id,
            },
    {
        let mut next: usize = 0;
        while next < self.templates.len()
            invariant
                next <= self.templates@.len(),
                forall|j: int| 0 <= j < next ==> (#[trigger] self.templates@[j]).id != id,
            decreases self.templates@.len() - next,
        {
            if self.templates[next].id == id {
                return Some(&self.templates[next]);
            }
            next = next + 1;
        }
        None
    }
}

} // verus!
