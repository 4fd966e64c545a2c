pub mod agents;
pub mod editor;
pub mod ids;
pub mod intersection;
pub mod map;
pub mod parking;
pub mod scheduler;
pub mod sim;
pub mod spawner;
pub mod stop_signs;
pub mod trips;
