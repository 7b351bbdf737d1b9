pub mod ehentai;
pub mod hitomi;
pub mod madaradex;
pub mod nhentai;
