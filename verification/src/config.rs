//! Configured constants of a scraping run.

use vstd::prelude::*;

verus! {

/// The number of tasks that may be in flight at once.
pub const BATCH_SIZE: usize = 100;

/// The endpoint that every request is posted to.
pub const ENDPOINT: &'static str = "https://octopart.com/api/v4/internal";

/// The user agent offered when the caller names none.
pub const DEFAULT_USER_AGENT: &'static str =
    "Mozilla/5.0 (Macintosh; Intel Mac OS X 10_15_7) AppleWebKit/537.36 (KHTML, like Gecko) Chrome/119.0.0.0 Safari/537.36";

/// The largest number of components that one request may ask for.
pub const OCTOPART_COMPONENT_REQUEST_LIMIT: u64 = 100;

/// The largest number of components that can be harvested for one combination.
pub const OCTOPART_COMPONENT_COMBINATION_LIMIT: u64 = 1000;

/// The seconds after which a single request is given up.
pub const REQUEST_TIMEOUT_SECS: u64 = 10;

/// The file name used when the run has no category name.
pub const DEFAULT_FILENAME: &'static str = "data";

/// The directory that results are written to.
pub const DEFAULT_SAVE_DIR: &'static str = "./data";

/// The suffix that marks the stem of a metadata file.
pub const METADATA_FILE_SUFFIX: &'static str = "metadata";

/// The query that asks for the buckets of the named attributes.
pub const ATTRIBUTE_BUCKET_QUERY: &'static str = r"
query FilterModalSearch($attribute_names: [String!]!, $currency: String!, $filters: Map, $in_stock_only: Boolean, $q: String) {
    search(currency: $currency, filters: $filters, in_stock_only: $in_stock_only, q: $q) {
        hits
        spec_aggs(attribute_names: $attribute_names, size: 100) {
            buckets {
                count
                display_value
                float_value
            }
        }
    }
}
";

/// The query that asks for one page of components.
pub const PART_SEARCH_QUERY: &'static str = r"
query PricesViewSearch($country: String!, $currency: String!, $filters: Map, $in_stock_only: Boolean, $limit: Int!, $q: String, $sort: String, $sort_dir: SortDirection, $start: Int) {
  search(country: $country, currency: $currency, filters: $filters, in_stock_only: $in_stock_only, limit: $limit, q: $q, sort: $sort, sort_dir: $sort_dir, start: $start) {
    applied_category {
      ancestors {
        id
        name
        path
      }
      id
      name
      path
    }
    applied_filters {
      display_values
      name
      shortname
      values
    }
    results {
      _cache_id
      description
      part {
        _cache_id
        best_datasheet {
          url
        }
        best_image {
          url
        }
        category {
          id
        }
        counts
        descriptions {
          text
        }
        id
        manufacturer {
          id
          is_verified
          name
        }
        manufacturer_url
        median_price_1000 {
          _cache_id
          converted_currency
          converted_price
        }
        mpn
        specs {
          attribute {
            id
            name
            shortname
          }
          display_value
        }
      }
    }
    hits
  }
}
";

} // verus!
