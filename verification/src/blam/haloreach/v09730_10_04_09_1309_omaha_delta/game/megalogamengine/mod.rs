pub mod megalogamengine_conditions;
