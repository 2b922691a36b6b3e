//! Plain data of an embedding prompt: its template text, what to do when
//! rendering fails, and the text used in place of a failed rendering.

use vstd::prelude::*;

verus! {

/// What to do with a document whose prompt cannot be rendered.
#[derive(Debug, Clone, Copy, PartialEq, Eq, Structural)]
pub enum PromptFallbackStrategy {
    Fallback,
    Skip,
    Error,
}

impl Default for PromptFallbackStrategy {
    fn default() -> (r: Self)
        ensures
            r == PromptFallbackStrategy::Error,
    {
        PromptFallbackStrategy::Error
    }
}

/// The serialisable description of a prompt.
#[derive(Debug, Clone)]
pub struct PromptData {
    pub template: String,
    pub strategy: PromptFallbackStrategy,
    pub fallback: String,
}

/// The text of the template used when none is configured: one line per field.
pub open spec fn spec_default_template_text() -> Seq<char> {
    "{% for field in fields %} {{ field.name }}: {{ field.value }}\n{% endfor %}"@
}

/// The text rendered in place of a missing value.
pub open spec fn spec_default_fallback() -> Seq<char> {
    "<MISSING>"@
}

/// The template used when none is configured.
pub fn default_template_text() -> (r: &'static str)
    ensures
        r@ == spec_default_template_text(),
{
    "{% for field in fields %} {{ field.name }}: {{ field.value }}\n{% endfor %}"
}

/// The fallback text used when none is configured.
pub fn default_fallback() -> (r: &'static str)
    ensures
        r@ == spec_default_fallback(),
{
    "<MISSING>"
}

impl Default for PromptData {
    fn default() -> (r: Self)
        ensures
            r.template@ == spec_default_template_text(),
            r.strategy == PromptFallbackStrategy::Error,
            r.fallback@ == spec_default_fallback(),
    {
        PromptData {
            template: default_template_text().to_owned(),
            strategy: PromptFallbackStrategy::Error,
            fallback: default_fallback().to_owned(),
        }
    }
}

} // verus!
