pub mod asteroid_dto;
