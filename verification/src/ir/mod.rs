//! The intermediate representation that every format is parsed into and
//! written from.
pub mod capabilities;
pub mod comment;
pub mod context;
pub mod entry;
pub mod extensions;
pub mod placeholder;
pub mod resource;
pub mod value;
pub mod workflow;

pub use capabilities::{FormatCapabilities, DataLossWarning, WarningSeverity};
pub use comment::{Comment, CommentRole, AnnotationTarget};
pub use context::{ContextEntry, ContextType};
pub use entry::{I18nEntry};
pub use extensions::{FormatExtension, AndroidXmlExt, XcstringsExt, IosStringsExt, StringsdictExt, ArbExt, JsonStructuredExt, I18nextJsonExt, Xliff1Ext, PoExt, YamlRailsExt, Xliff2Ext, ResxExt, JavaPropertiesExt, PhpLaravelExt, QtLinguistExt, CsvExt, TomlExt, IniExt, Json5Ext, HjsonExt, TmxExt, SrtExt, ExcelExt, MarkdownExt, IosPlistExt, JavaScriptExt, TypeScriptExt, NeonExt, PlainTextExt, YamlPlainExt, IspringXliffExt, CaptivateXmlExt};
pub use placeholder::{Placeholder, PlaceholderType};
pub use resource::{I18nResource, ResourceMetadata, FormatId, TextDirection};
pub use value::{EntryValue, PluralSet, PluralRange, SelectSet, MultiVariablePlural, PluralVariable};
pub use workflow::{TranslationState, AlternativeTranslation, SourceRef, DeviceType};
