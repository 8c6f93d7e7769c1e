pub mod assembly;
