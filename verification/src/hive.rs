//! The configuration entities: bindings, imports, locals, scopes and the
//! top-level scope collection.

pub mod configurations;
pub mod import;
pub mod inherit;
pub mod variable;

pub use crate::hive::configurations::ConfigurationType;
pub use crate::hive::configurations::ConfigurationTypeView;
pub use crate::hive::configurations::Configurations;
pub use crate::hive::configurations::ConfigurationsView;
pub use crate::hive::configurations::HiveError;
pub use crate::hive::configurations::NixosConfigurations;
pub use crate::hive::import::Import;
pub use crate::hive::import::ImportView;
pub use crate::hive::import::Imports;
pub use crate::hive::inherit::Inherit;
pub use crate::hive::inherit::InheritView;
pub use crate::hive::variable::Variable;
pub use crate::hive::variable::VariableView;
