use vstd::prelude::*;
use crate::deck::Deck;
use crate::player_card::PlayerCard;

verus! {

/// Number of roles.
pub const ROLE_COUNT: usize = 7;

/// The names of the roles, in the order of their declaration.
pub const ROLE_NAMES: [&'static str; 7] = [
    "Contingency Planner",
    "Dispatcher",
    "Medic",
    "Operations Expert",
    "Quarantine Specialist",
    "Researcher",
    "Scientist",
];

/// What a contingency planner can do.
pub const CONTINGENCY_PLANNER_SKILLS: [&'static str; 3] = [
    "As an action, take any discarded Event card and store it on this card.",
    "When you play the stored Event card, remove it from the game.",
    "Limit: 1 Event card on this card at a time, which is not part of your hand.",
];

/// What a dispatcher can do.
pub const DISPATCHER_SKILLS: [&'static str; 3] = [
    "Move another player's pawn as if it were yours.",
    "As an action, move any pawn to a city with another pawn.",
    "Get permission before moving another player's pawn.",
];

/// What a medic can do.
pub const MEDIC_SKILLS: [&'static str; 2] = [
    "Remove all cubes of one color when doing Treat Disease.",
    "Automatically remove cubes of cured diseases from the city you are in (and prevent them from being placed there).",
];

/// What an operations expert can do.
pub const OPERATIONS_EXPERT_SKILLS: [&'static str; 2] = [
    "As an action, build a research station in the city you are in (no City card needed).",
    "Once per turn as an action, move from a research station to any city by discarding any City card.",
];

/// What a quarantine specialist can do.
pub const QUARANTINE_SPECIALIST_SKILLS: [&'static str; 1] = [
    "Prevent disease cube placements (and outbreaks) in the city you are in and all cities connected to it.",
];

/// What a researcher can do.
pub const RESEARCHER_SKILLS: [&'static str; 1] = [
    "You may give any 1 of your City cards when you Share Knowledge. It need not match your city. A player who Shares Knowledge with you on their turn can take any 1 of your City cards.",
];

/// What a scientist can do.
pub const SCIENTIST_SKILLS: [&'static str; 1] = [
    "You need only 4 cards of the same color to do the Discover a Cure action.",
];

/// The roles that a player can have. The Operations Expert's variant holds
/// the card that the role has put aside.
#[derive(Clone, Copy, Debug, PartialEq, Eq)]
pub enum Role {
    ContingencyPlanner,
    Dispatcher,
    Medic,
    OperationsExpert(Option<PlayerCard>),
    QuarantineSpecialist,
    Researcher,
    Scientist,
}

/// A card of the role deck.
#[derive(Clone, Debug)]
pub struct RoleCard {
    pub role: Role,
    pub description: Vec<&'static str>,
}

/// The role at position `i` of the role deck before it is shuffled.
pub open spec fn role_at(i: int) -> Role {
    if i == 0 {
        Role::ContingencyPlanner
    } else if i == 1 {
        Role::Dispatcher
    } else if i == 2 {
        Role::Medic
    } else if i == 3 {
        Role::OperationsExpert(None)
    } else if i == 4 {
        Role::QuarantineSpecialist
    } else if i == 5 {
        Role::Researcher
    } else {
        Role::Scientist
    }
}

impl Role {
    /// Position of the role in the declaration order, from 0 to 6.
    pub open spec fn rank(self) -> int {
        match self {
            Role::ContingencyPlanner => 0,
            Role::Dispatcher => 1,
            Role::Medic => 2,
            Role::OperationsExpert(_) => 3,
            Role::QuarantineSpecialist => 4,
            Role::Researcher => 5,
            Role::Scientist => 6,
        }
    }

    /// Position of the role in the declaration order, from 0 to 6.
    pub fn index(&self) -> (i: usize)
        ensures
            i == self.rank(),
    {
        match self {
            Role::ContingencyPlanner => 0,
            Role::Dispatcher => 1,
            Role::Medic => 2,
            Role::OperationsExpert(_) => 3,
            Role::QuarantineSpecialist => 4,
            Role::Researcher => 5,
            Role::Scientist => 6,
        }
    }

    /// The characters of the role's name.
    pub open spec fn label(self) -> Seq<char> {
        ROLE_NAMES[self.rank()]@
    }

    /// The role's name.
    pub fn name(&self) -> (s: &'static str)
        ensures
            s@ == self.label(),
    {
        ROLE_NAMES[self.index()]
    }

    /// What the role lets its player do, sentence by sentence.
    pub open spec fn skills(self) -> Seq<&'static str> {
        match self {
            Role::ContingencyPlanner => CONTINGENCY_PLANNER_SKILLS@,
            Role::Dispatcher => DISPATCHER_SKILLS@,
            Role::Medic => MEDIC_SKILLS@,
            Role::OperationsExpert(_) => OPERATIONS_EXPERT_SKILLS@,
            Role::QuarantineSpecialist => QUARANTINE_SPECIALIST_SKILLS@,
            Role::Researcher => RESEARCHER_SKILLS@,
            Role::Scientist => SCIENTIST_SKILLS@,
        }
    }

    /// What the role lets its player do, sentence by sentence.
    pub fn description(&self) -> (text: Vec<&'static str>)
        ensures
            text@ == self.skills(),
    {
        let text = match self {
            Role::ContingencyPlanner => vec![
                CONTINGENCY_PLANNER_SKILLS[0],
                CONTINGENCY_PLANNER_SKILLS[1],
                CONTINGENCY_PLANNER_SKILLS[2],
            ],
            Role::Dispatcher => vec![
                DISPATCHER_SKILLS[0],
                DISPATCHER_SKILLS[1],
                DISPATCHER_SKILLS[2],
            ],
            Role::Medic => vec![MEDIC_SKILLS[0], MEDIC_SKILLS[1]],
            Role::OperationsExpert(_) => vec![
                OPERATIONS_EXPERT_SKILLS[0],
                OPERATIONS_EXPERT_SKILLS[1],
            ],
            Role::QuarantineSpecialist => vec![QUARANTINE_SPECIALIST_SKILLS[0]],
            Role::Researcher => vec![RESEARCHER_SKILLS[0]],
            Role::Scientist => vec![SCIENTIST_SKILLS[0]],
        };
        assert(text@ =~= self.skills());
        text
    }

    /// Whether the role treats every cube of a colour at once.
    pub fn is_medic(&self) -> (yes: bool)
        ensures
            yes == (*self is Medic),
    {
        match self {
            Role::Medic => true,
            _ => false,
        }
    }

    /// Whether the role builds a research station without a card.
    pub fn is_operations_expert(&self) -> (yes: bool)
        ensures
            yes == (*self is OperationsExpert),
    {
        match self {
            Role::OperationsExpert(_) => true,
            _ => false,
        }
    }

    /// Whether the role may hand over any of its city cards.
    pub fn is_researcher(&self) -> (yes: bool)
        ensures
            yes == (*self is Researcher),
    {
        match self {
            Role::Researcher => true,
            _ => false,
        }
    }

    /// Whether the role finds a cure with one card less.
    pub fn is_scientist(&self) -> (yes: bool)
        ensures
            yes == (*self is Scientist),
    {
        match self {
            Role::Scientist => true,
            _ => false,
        }
    }
}

impl Deck<RoleCard> {
    /// The role deck before it is shuffled: one card for each role, in the
    /// order of the roles' declaration.
    pub fn new() -> (deck: Self)
        ensures
            deck@.len() == ROLE_COUNT,
            forall|i: int|
                0 <= i < ROLE_COUNT ==> {
                    &&& (#[trigger] deck@[i]).role == role_at(i)
                    &&& deck@[i].description@ == role_at(i).skills()
                },
    {
        let cards = vec![
            RoleCard {
                role: Role::ContingencyPlanner,
                description: Role::ContingencyPlanner.description(),
            },
            RoleCard { role: Role::Dispatcher, description: Role::Dispatcher.description() },
            RoleCard { role: Role::Medic, description: Role::Medic.description() },
            RoleCard {
                role: Role::OperationsExpert(None),
                description: Role::OperationsExpert(None).description(),
            },
            RoleCard {
                role: Role::QuarantineSpecialist,
                description: Role::QuarantineSpecialist.description(),
            },
            RoleCard { role: Role::Researcher, description: Role::Researcher.description() },
            RoleCard { role: Role::Scientist, description: Role::Scientist.description() },
        ];
        Deck::from_vec(cards)
    }
}

} // verus!
