//! Parsing options.

use vstd::prelude::*;

use crate::lexeme::XmlAttributeWhitespacePolicy;

verus! {

/// Bounded policy for general entities declared in the internal subset.
#[derive(Clone, Copy, Debug, Eq, PartialEq, Structural)]
pub enum XmlEntityExpansionPolicy {
    /// Reject references other than the five predefined XML entities.
    Disabled,
    /// Expand internal declarations within the stated recursion and aggregate output limits.
    ExpandInternal {
        /// How deeply entities may refer to each other.
        max_depth: usize,
        /// How many bytes the replacements may have in total.
        max_expanded_bytes: usize,
    },
}

impl Default for XmlEntityExpansionPolicy {
    fn default() -> (r: Self)
        ensures
            r == (XmlEntityExpansionPolicy::ExpandInternal {
                max_depth: 16,
                max_expanded_bytes: 1_048_576,
            }),
    {
        XmlEntityExpansionPolicy::ExpandInternal { max_depth: 16, max_expanded_bytes: 1_048_576 }
    }
}

/// External general entities are never loaded implicitly.
#[derive(Clone, Copy, Debug, Eq, PartialEq, Structural)]
pub enum XmlExternalEntityPolicy {
    /// Reject a reference to an external entity without filesystem or network I/O.
    Reject,
}

impl Default for XmlExternalEntityPolicy {
    fn default() -> (r: Self)
        ensures
            r == XmlExternalEntityPolicy::Reject,
    {
        XmlExternalEntityPolicy::Reject
    }
}

/// Policy for parsed character-data white space.
#[derive(Clone, Copy, Debug, Eq, PartialEq, Structural)]
pub enum XmlTextWhitespacePolicy {
    /// Preserve every text node and its normalized value.
    Preserve,
    /// Omit text nodes containing only XML white space.
    DiscardWhitespaceOnly,
    /// Trim XML white space at both ends and omit nodes that become empty.
    Trim,
}

impl Default for XmlTextWhitespacePolicy {
    fn default() -> (r: Self)
        ensures
            r == XmlTextWhitespacePolicy::Preserve,
    {
        XmlTextWhitespacePolicy::Preserve
    }
}

/// Options shared by strict and tolerant parsing entry points.
///
/// Build a value from `default` or `preserve_all` and use the fluent setters.
#[derive(Clone, Copy, Debug, Eq, PartialEq, Structural)]
pub struct ParserConfig {
    preserve_declaration: bool,
    preserve_doctype: bool,
    preserve_comments: bool,
    preserve_processing_instructions: bool,
    preserve_cdata_nodes: bool,
    preserve_text_nodes: bool,
    text_whitespace: XmlTextWhitespacePolicy,
    attribute_whitespace: XmlAttributeWhitespacePolicy,
    entity_expansion: XmlEntityExpansionPolicy,
    external_entities: XmlExternalEntityPolicy,
    validate_characters: bool,
    validate_references: bool,
    validate_duplicate_attributes: bool,
}

/// The options of a `ParserConfig`.
pub struct ConfigModel {
    pub preserve_declaration: bool,
    pub preserve_doctype: bool,
    pub preserve_comments: bool,
    pub preserve_processing_instructions: bool,
    pub preserve_cdata_nodes: bool,
    pub preserve_text_nodes: bool,
    pub text_whitespace: XmlTextWhitespacePolicy,
    pub attribute_whitespace: XmlAttributeWhitespacePolicy,
    pub entity_expansion: XmlEntityExpansionPolicy,
    pub external_entities: XmlExternalEntityPolicy,
    pub validate_characters: bool,
    pub validate_references: bool,
    pub validate_duplicate_attributes: bool,
}

impl View for ParserConfig {
    type V = ConfigModel;

    closed spec fn view(&self) -> ConfigModel {
        ConfigModel {
            preserve_declaration: self.preserve_declaration,
            preserve_doctype: self.preserve_doctype,
            preserve_comments: self.preserve_comments,
            preserve_processing_instructions: self.preserve_processing_instructions,
            preserve_cdata_nodes: self.preserve_cdata_nodes,
            preserve_text_nodes: self.preserve_text_nodes,
            text_whitespace: self.text_whitespace,
            attribute_whitespace: self.attribute_whitespace,
            entity_expansion: self.entity_expansion,
            external_entities: self.external_entities,
            validate_characters: self.validate_characters,
            validate_references: self.validate_references,
            validate_duplicate_attributes: self.validate_duplicate_attributes,
        }
    }
}

/// The default options: everything but the document type declaration is kept.
pub open spec fn default_config() -> ConfigModel {
    ConfigModel { preserve_doctype: false, ..preserving_config() }
}

/// The options that keep every node.
pub open spec fn preserving_config() -> ConfigModel {
    ConfigModel {
        preserve_declaration: true,
        preserve_doctype: true,
        preserve_comments: true,
        preserve_processing_instructions: true,
        preserve_cdata_nodes: true,
        preserve_text_nodes: true,
        text_whitespace: XmlTextWhitespacePolicy::Preserve,
        attribute_whitespace: XmlAttributeWhitespacePolicy::Normalize,
        entity_expansion: XmlEntityExpansionPolicy::ExpandInternal {
            max_depth: 16,
            max_expanded_bytes: 1_048_576,
        },
        external_entities: XmlExternalEntityPolicy::Reject,
        validate_characters: true,
        validate_references: true,
        validate_duplicate_attributes: true,
    }
}

impl Default for ParserConfig {
    fn default() -> (r: Self)
        ensures
            r@ == default_config(),
    {
        ParserConfig {
            preserve_declaration: true,
            preserve_doctype: false,
            preserve_comments: true,
            preserve_processing_instructions: true,
            preserve_cdata_nodes: true,
            preserve_text_nodes: true,
            text_whitespace: XmlTextWhitespacePolicy::Preserve,
            attribute_whitespace: XmlAttributeWhitespacePolicy::Normalize,
            entity_expansion: XmlEntityExpansionPolicy::ExpandInternal {
                max_depth: 16,
                max_expanded_bytes: 1_048_576,
            },
            external_entities: XmlExternalEntityPolicy::Reject,
            validate_characters: true,
            validate_references: true,
            validate_duplicate_attributes: true,
        }
    }
}

impl ParserConfig {
    /// Preserves every representable document node, including the doctype.
    pub fn preserve_all() -> (r: Self)
        ensures
            r@ == preserving_config(),
    {
        let mut config = ParserConfig::default();
        config.preserve_doctype = true;
        config
    }

    /// Controls whether the XML declaration is retained.
    pub fn preserve_declaration(self, preserve: bool) -> (r: Self)
        ensures
            r@ == (ConfigModel { preserve_declaration: preserve, ..self@ }),
    {
        let mut config = self;
        config.preserve_declaration = preserve;
        config
    }

    /// Controls whether the document type declaration is retained.
    pub fn preserve_doctype(self, preserve: bool) -> (r: Self)
        ensures
            r@ == (ConfigModel { preserve_doctype: preserve, ..self@ }),
    {
        let mut config = self;
        config.preserve_doctype = preserve;
        config
    }

    /// Controls whether comments are represented as nodes.
    pub fn preserve_comments(self, preserve: bool) -> (r: Self)
        ensures
            r@ == (ConfigModel { preserve_comments: preserve, ..self@ }),
    {
        let mut config = self;
        config.preserve_comments = preserve;
        config
    }

    /// Controls whether processing instructions are represented as nodes.
    pub fn preserve_processing_instructions(self, preserve: bool) -> (r: Self)
        ensures
            r@ == (ConfigModel { preserve_processing_instructions: preserve, ..self@ }),
    {
        let mut config = self;
        config.preserve_processing_instructions = preserve;
        config
    }

    /// Controls whether CDATA sections retain distinct nodes.
    pub fn preserve_cdata_nodes(self, preserve: bool) -> (r: Self)
        ensures
            r@ == (ConfigModel { preserve_cdata_nodes: preserve, ..self@ }),
    {
        let mut config = self;
        config.preserve_cdata_nodes = preserve;
        config
    }

    /// Controls whether character data is represented as text nodes.
    pub fn preserve_text_nodes(self, preserve: bool) -> (r: Self)
        ensures
            r@ == (ConfigModel { preserve_text_nodes: preserve, ..self@ }),
    {
        let mut config = self;
        config.preserve_text_nodes = preserve;
        config
    }

    /// Selects the policy for white space in text nodes.
    pub fn text_whitespace(self, policy: XmlTextWhitespacePolicy) -> (r: Self)
        ensures
            r@ == (ConfigModel { text_whitespace: policy, ..self@ }),
    {
        let mut config = self;
        config.text_whitespace = policy;
        config
    }

    /// Selects the attribute white space policy.
    pub fn attribute_whitespace(self, policy: XmlAttributeWhitespacePolicy) -> (r: Self)
        ensures
            r@ == (ConfigModel { attribute_whitespace: policy, ..self@ }),
    {
        let mut config = self;
        config.attribute_whitespace = policy;
        config
    }

    /// Selects the entity expansion policy.
    pub fn entity_expansion(self, policy: XmlEntityExpansionPolicy) -> (r: Self)
        ensures
            r@ == (ConfigModel { entity_expansion: policy, ..self@ }),
    {
        let mut config = self;
        config.entity_expansion = policy;
        config
    }

    /// Selects the external entity policy.
    pub fn external_entities(self, policy: XmlExternalEntityPolicy) -> (r: Self)
        ensures
            r@ == (ConfigModel { external_entities: policy, ..self@ }),
    {
        let mut config = self;
        config.external_entities = policy;
        config
    }

    /// Enables or disables the validation of characters.
    pub fn validate_characters(self, validate: bool) -> (r: Self)
        ensures
            r@ == (ConfigModel { validate_characters: validate, ..self@ }),
    {
        let mut config = self;
        config.validate_characters = validate;
        config
    }

    /// Enables or disables the validation of references.
    pub fn validate_references(self, validate: bool) -> (r: Self)
        ensures
            r@ == (ConfigModel { validate_references: validate, ..self@ }),
    {
        let mut config = self;
        config.validate_references = validate;
        config
    }

    /// Enables or disables the rejection of duplicate attributes.
    pub fn validate_duplicate_attributes(self, validate: bool) -> (r: Self)
        ensures
            r@ == (ConfigModel { validate_duplicate_attributes: validate, ..self@ }),
    {
        let mut config = self;
        config.validate_duplicate_attributes = validate;
        config
    }

    /// Are declarations retained?
    pub fn preserves_declaration(self) -> (r: bool)
        ensures
            r == self@.preserve_declaration,
    {
        self.preserve_declaration
    }

    /// Are doctypes retained?
    pub fn preserves_doctype(self) -> (r: bool)
        ensures
            r == self@.preserve_doctype,
    {
        self.preserve_doctype
    }

    /// Are comments represented?
    pub fn preserves_comments(self) -> (r: bool)
        ensures
            r == self@.preserve_comments,
    {
        self.preserve_comments
    }

    /// Are processing instructions represented?
    pub fn preserves_processing_instructions(self) -> (r: bool)
        ensures
            r == self@.preserve_processing_instructions,
    {
        self.preserve_processing_instructions
    }

    /// Do CDATA sections remain distinct nodes?
    pub fn preserves_cdata_nodes(self) -> (r: bool)
        ensures
            r == self@.preserve_cdata_nodes,
    {
        self.preserve_cdata_nodes
    }

    /// Are text nodes represented?
    pub fn preserves_text_nodes(self) -> (r: bool)
        ensures
            r == self@.preserve_text_nodes,
    {
        self.preserve_text_nodes
    }

    /// The policy for white space in text nodes.
    pub fn text_whitespace_policy(self) -> (r: XmlTextWhitespacePolicy)
        ensures
            r == self@.text_whitespace,
    {
        self.text_whitespace
    }

    /// The attribute white space policy.
    pub fn attribute_whitespace_policy(self) -> (r: XmlAttributeWhitespacePolicy)
        ensures
            r == self@.attribute_whitespace,
    {
        self.attribute_whitespace
    }

    /// The entity expansion policy.
    pub fn entity_expansion_policy(self) -> (r: XmlEntityExpansionPolicy)
        ensures
            r == self@.entity_expansion,
    {
        self.entity_expansion
    }

    /// The external entity policy.
    pub fn external_entity_policy(self) -> (r: XmlExternalEntityPolicy)
        ensures
            r == self@.external_entities,
    {
        self.external_entities
    }

    /// Are characters validated?
    pub fn validates_characters(self) -> (r: bool)
        ensures
            r == self@.validate_characters,
    {
        self.validate_characters
    }

    /// Are references validated?
    pub fn validates_references(self) -> (r: bool)
        ensures
            r == self@.validate_references,
    {
        self.validate_references
    }

    /// Are duplicate attributes rejected?
    pub fn validates_duplicate_attributes(self) -> (r: bool)
        ensures
            r == self@.validate_duplicate_attributes,
    {
        self.validate_duplicate_attributes
    }
}

} // verus!
