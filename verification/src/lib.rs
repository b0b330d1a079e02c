pub mod classifier;
pub mod encoding;
pub mod errors;
pub mod input;
pub mod maker;
pub mod model;
pub mod output;
pub mod random;
pub mod text;

pub use classifier::Classifier;
pub use encoding::{decode, encode};
pub use errors::{ClassifierId, GenerationError, PasswordsError, ValidationError};
pub use input::{classifier_from_text, generate_passwords, set_classifiers, MakerOptions};
pub use maker::PasswordMaker;
pub use output::format_passwords;
pub use random::RandomSource;
