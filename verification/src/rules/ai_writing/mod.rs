pub mod ai_tech_writing_guideline;
pub mod no_ai_hype_expressions;
pub mod no_ai_emphasis_patterns;
pub mod no_ai_list_formatting;
pub mod no_ai_colon_continuation;
