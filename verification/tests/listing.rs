//! Listing reads, the recipe filter, error rendering, and configuration
//! defaults.

use recipes::api::{default_filter_limit, list_categories, list_ingredients, list_versions,
    ApiError, RecipeFilter, DEFAULT_PAGE_SIZE, LISTING_LIMIT};
use recipes::config::{default_max_connections, Config, DatabaseConfig, LogLevel, LoggingConfig,
    ServerConfig};
use recipes::error::stringify_err;
use recipes::models::{Category, Ingredient, Recipe, RecipeVersion};
use recipes::store::Store;
use recipes::Error;

#[test]
fn categories_list_in_identifier_order_up_to_the_limit() {
    let mut store = Store::new();
    Category::store_new(&mut store, "Dessert".to_string()).unwrap();
    Category::store_new(&mut store, "Breakfast".to_string()).unwrap();
    Category::store_new(&mut store, "Dinner".to_string()).unwrap();
    let all = list_categories(&store, LISTING_LIMIT);
    assert_eq!(all.len(), 3);
    assert_eq!(all[0].id, 0);
    assert_eq!(all[0].name, "Dessert");
    assert_eq!(all[2].id, 2);
    let limited = list_categories(&store, 2);
    assert_eq!(limited.len(), 2);
    assert_eq!(limited[1].name, "Breakfast");
}

#[test]
fn ingredients_list_in_identifier_order_up_to_the_limit() {
    let mut store = Store::new();
    Ingredient::store_new(&mut store, "Sugar".to_string(), 1700.0f64.to_bits()).unwrap();
    Ingredient::store_new(&mut store, "Flour".to_string(), 1450.0f64.to_bits()).unwrap();
    let all = list_ingredients(&store, LISTING_LIMIT);
    assert_eq!(all.len(), 2);
    assert_eq!(all[0].name, "Sugar");
    assert_eq!(all[0].energy_density, 1700.0f64.to_bits());
    assert_eq!(all[1].name, "Flour");
    let limited = list_ingredients(&store, 1);
    assert_eq!(limited.len(), 1);
}

#[test]
fn versions_list_in_version_order_resolved_one_level() {
    let mut store = Store::new();
    Recipe::store_new(&mut store, "Cake".to_string(), vec![]).unwrap();
    RecipeVersion::store_new(&mut store, 0, 1_600_000_000, vec![], vec![], 600).unwrap();
    RecipeVersion::store_new(&mut store, 0, 1_600_000_100, vec![], vec![], 700).unwrap();
    let versions = list_versions(&store, 0, LISTING_LIMIT).unwrap();
    assert_eq!(versions.len(), 2);
    assert_eq!(versions[0].id, 0);
    assert_eq!(versions[0].duration, 600);
    assert_eq!(versions[1].id, 1);
    assert_eq!(versions[1].duration, 700);
    let limited = list_versions(&store, 0, 1).unwrap();
    assert_eq!(limited.len(), 1);
    assert_eq!(limited[0].id, 0);
}

#[test]
fn filter_summary_renders_both_forms() {
    let all = RecipeFilter { text: None, limit: default_filter_limit() };
    assert_eq!(all.summary(), "All recipes with limit 100");
    assert_eq!(default_filter_limit(), DEFAULT_PAGE_SIZE);
    let matching = RecipeFilter { text: Some("cake".to_string()), limit: 25 };
    assert_eq!(matching.summary(), "Recipes matching \"cake\" with limit 25");
}

#[test]
fn api_errors_carry_transport_codes() {
    let not_found = ApiError::from_db(&Error::NotFound);
    assert_eq!(not_found.status_code, 404);
    assert_eq!(not_found.message, "Resource not found");
    let bad = ApiError::from_db(&Error::InvalidReference);
    assert_eq!(bad.status_code, 400);
    assert_eq!(bad.message, "Bad arguments: invalid reference");
    let internal = ApiError::from_db(&Error::Internal);
    assert_eq!(internal.status_code, 500);
    assert_eq!(internal.message, "Internal database error");
    let sql = ApiError::from_db(&Error::StoreFailure("boom".to_string()));
    assert_eq!(sql.status_code, 500);
}

#[test]
fn errors_describe_themselves_and_stringify() {
    assert_eq!(Error::NotFound.describe(), "Resource not found");
    assert_eq!(Error::Internal.describe(), "Internal error");
    assert_eq!(
        Error::StoreFailure("pool closed".to_string()).describe(),
        "Database error: pool closed"
    );
    assert_eq!(stringify_err(Ok::<u32, Error>(5)), Ok(5));
    assert_eq!(
        stringify_err(Err::<u32, Error>(Error::InvalidReference)),
        Err("Bad arguments: invalid reference".to_string())
    );
}

#[test]
fn configuration_defaults_hold() {
    assert_eq!(default_max_connections(), 16);
    let config = Config {
        database: DatabaseConfig {
            connection_url: "sqlite:///tmp/recipes.db".to_string(),
            max_connections: default_max_connections(),
        },
        server: ServerConfig { ip_address: "127.0.0.1".to_string(), port: 8080 },
        logging: LoggingConfig {
            log_file_path: "/tmp/recipes.log".to_string(),
            verbosity: LogLevel::Info,
        },
    };
    assert_eq!(config.database.max_connections, 16);
    assert_eq!(config.server.port, 8080);
    assert!(matches!(config.logging.verbosity, LogLevel::Info));
}
