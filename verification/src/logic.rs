pub mod impact_energy;
