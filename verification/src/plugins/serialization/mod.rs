//! The serialization plugin.

pub mod annotations;
pub mod body_laws;
pub mod cached_serializer;
pub mod child_serializer_cache;
pub mod constructed_standard_serializers;
pub mod default_laws;
pub mod descriptor_element;
pub mod descriptor_laws;
pub mod deserialization_constructor;
pub mod deserialize_body;
pub mod element_serializer;
pub mod enum_serializer;
pub mod external_serializer;
pub mod generated_classifier;
pub mod generated_members;
pub mod index_laws;
pub mod plan_laws;
pub mod plugin_release;
pub mod property_default;
pub mod read_laws;
pub mod runtime_abi;
pub mod serial_elements;
pub mod serialize_body;
pub mod signatures;
pub mod support;
pub mod transient_initializer;
pub mod type_parameter_serializers;
pub mod value_class_types;
pub mod write_laws;
