# pricy

A crawler that finds shop products and their prices. The library in `src/`
holds everything the crawler computes, verified with Verus; the program in
`app/` fetches pages, reads and writes files and prints JSON.

- `text`: character-level string operations (search, replace, trim, split,
  lines, join, lexicographic sorting) with their laws.
- `shops`: the known shops, their names and domains, finding a shop by name,
  by address or by host; per shop, turning product pages into products.
- `utilities`: sitemap links, JSON documents embedded in pages, gzip bodies,
  piped addresses, configuration and sitemap file names.
- `models`: products, shop descriptions and client options.
