//! Body checking: name resolution, overload selection and the facts it publishes.

pub mod abstract_obligations;
pub mod actualization_names;
pub mod adapted_instance_selection;
pub mod alias_constructor_application;
pub mod annotation_applications;
pub mod annotation_legacy_bridge;
pub mod call_constraints;
pub mod call_diagnostics;
pub mod call_result_constraint;
pub mod call_result_templates;
pub mod callable_reference_selection;
pub mod callable_reference_specialization;
pub mod calls;
pub mod capture_analysis;
pub mod capture_laws;
pub mod capture_storage;
pub mod checked_annotation_publication;
pub mod checked_constant_publication;
pub mod checker_symbol_queries;
pub mod classifier_associated;
pub mod collection_literals;
pub mod collection_transform_bridge;
pub mod compound_assignments;
pub mod conditional_branch;
pub mod constant_evaluation;
pub mod constant_laws;
pub mod context_capture;
pub mod context_laws;
pub mod context_sensitive_resolution;
pub mod declaration_index;
pub mod delegate_diagnostics;
pub mod delegate_laws;
pub mod delegated_properties;
pub mod dependency_platform;
pub mod diagnostic_selection;
pub mod federation_laws;
pub mod finalized_projection;
pub mod for_loop_iteration;
pub mod function_type_parameters;
pub mod generic_call_bindings;
pub mod hierarchy_laws;
pub mod import_scopes;
pub mod inference_laws;
pub mod loop_laws;
pub mod naming_laws;
pub mod projection_laws;
pub mod selection_laws;
pub mod source_names;
pub mod source_table;
pub mod specialization_laws;
