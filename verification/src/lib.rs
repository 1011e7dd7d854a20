//! An interactive-narrative interpreter: parses a vault of marked-up
//! documents into scenes, characters and choices, and walks the resulting
//! graph while mutating a typed variable store.
pub mod character;
pub mod conditions;
pub mod dialogue;
pub mod effects;
pub mod errors;
pub mod front_matter;
pub mod numbers;
pub mod runtime;
pub mod scene;
pub mod state;
pub mod table;
pub mod text;
pub mod value;
pub mod vault;

pub use conditions::{parse_compound_condition, parse_condition, parse_simple_condition};
pub use dialogue::{extract_dialogue, strip_dialogue};
pub use effects::parse_effects;
pub use errors::{ChooseError, EvalError, InitError, LoadError, ParseError};
pub use scene::strip_wikilinks;
pub use character::Character;
pub use conditions::{Condition, SimpleCondition};
pub use dialogue::DialogueLine;
pub use effects::Effect;
pub use runtime::Runtime;
pub use scene::{Choice, Scene};
pub use state::State;
pub use value::StoreValue;
pub use vault::{Document, Vault};
