use gene_overlaps::args::parse;
use gene_overlaps::interval::{normalize, overlaps, GenomicInterval};
use gene_overlaps::overlap::{
    build_read_index, count_all, count_matches, count_overlaps, total_intersections, GeneRecord,
    GeneResult, ReadRecord,
};

fn gene(name: &str, strand: &str, chr: &str, a: usize, b: usize) -> GeneRecord {
    GeneRecord {
        name: name.to_string(),
        strand: strand.to_string(),
        chromosome: chr.to_string(),
        interval: normalize(a, b),
    }
}

fn read(strand: &str, chr: &str, a: usize, b: usize) -> ReadRecord {
    ReadRecord { strand: strand.to_string(), chromosome: chr.to_string(), interval: normalize(a, b) }
}

fn run(genes: &Vec<GeneRecord>, reads: &Vec<ReadRecord>) -> Vec<GeneResult> {
    let index = build_read_index(reads);
    count_all(genes, reads, &index)
}

#[test]
fn normalize_orders_endpoints() {
    assert_eq!(normalize(5, 3), GenomicInterval { start: 3, end: 5 });
    assert_eq!(normalize(3, 5), GenomicInterval { start: 3, end: 5 });
    assert_eq!(normalize(7, 7), GenomicInterval { start: 7, end: 7 });
    assert_eq!(normalize(200, 100), normalize(100, 200));
}

#[test]
fn overlap_is_boundary_inclusive() {
    let a = normalize(10, 20);
    assert!(overlaps(&a, &normalize(20, 30)));
    assert!(overlaps(&a, &normalize(0, 10)));
    assert!(!overlaps(&a, &normalize(21, 30)));
    assert!(overlaps(&normalize(4, 4), &normalize(4, 4)));
}

#[test]
fn single_gene_attribute_filter() {
    let genes = vec![gene("G1", "+", "chr1", 100, 200)];
    let reads = vec![read("+", "chr1", 150, 160), read("-", "chr1", 150, 160), read("+", "chr2", 150, 160)];
    let out = run(&genes, &reads);
    assert_eq!(out.len(), 1);
    assert_eq!(out[0].name, "G1");
    assert_eq!(out[0].strand, "+");
    assert_eq!(out[0].chromosome, "chr1");
    assert_eq!(out[0].intersections, 1);
}

#[test]
fn reversed_read_coordinates_count_the_same() {
    let genes = vec![gene("G1", "+", "chr1", 150, 160), gene("G2", "+", "chr1", 250, 300)];
    let fwd = run(&genes, &vec![read("+", "chr1", 100, 200)]);
    let rev = run(&genes, &vec![read("+", "chr1", 200, 100)]);
    assert_eq!(fwd[0].intersections, 1);
    assert_eq!(fwd[1].intersections, 0);
    assert_eq!(rev[0].intersections, fwd[0].intersections);
    assert_eq!(rev[1].intersections, fwd[1].intersections);
}

#[test]
fn empty_reads_give_zero() {
    let genes = vec![gene("G1", "+", "chr1", 100, 200)];
    let out = run(&genes, &Vec::new());
    assert_eq!(out.len(), 1);
    assert_eq!(out[0].intersections, 0);
}

#[test]
fn empty_genes_give_empty_output() {
    let out = run(&Vec::new(), &vec![read("+", "chr1", 1, 2)]);
    assert!(out.is_empty());
    assert_eq!(total_intersections(&out), 0);
}

#[test]
fn point_intervals_touch() {
    let genes = vec![gene("P", "+", "chrX", 42, 42)];
    let reads = vec![read("+", "chrX", 42, 42), read("+", "chrX", 43, 43), read("+", "chrX", 30, 42)];
    let out = run(&genes, &reads);
    assert_eq!(out[0].intersections, 2);
}

#[test]
fn counts_match_brute_force_and_keep_order() {
    let mut genes = Vec::new();
    let mut reads = Vec::new();
    let strands = ["+", "-"];
    let chrs = ["chr1", "chr2"];
    let mut x: usize = 17;
    for i in 0..40usize {
        x = (x * 1103 + 12345) % 10007;
        let a = x % 500;
        x = (x * 1103 + 12345) % 10007;
        let b = x % 500;
        reads.push(read(strands[i % 2], chrs[(i / 2) % 2], a, b));
    }
    for i in 0..15usize {
        x = (x * 1103 + 12345) % 10007;
        let a = x % 500;
        x = (x * 1103 + 12345) % 10007;
        let b = x % 500;
        genes.push(gene(&format!("g{}", i), strands[(i / 3) % 2], chrs[i % 2], a, b));
    }
    let out = run(&genes, &reads);
    let again = run(&genes, &reads);
    let mut pairs: u128 = 0;
    for (i, g) in genes.iter().enumerate() {
        let expect = reads
            .iter()
            .filter(|r| {
                r.strand == g.strand
                    && r.chromosome == g.chromosome
                    && g.interval.start <= r.interval.end
                    && r.interval.start <= g.interval.end
            })
            .count() as u32;
        assert_eq!(out[i].name, g.name);
        assert_eq!(out[i].intersections, expect);
        assert_eq!(again[i].intersections, expect);
        pairs += expect as u128;
    }
    assert_eq!(total_intersections(&out), pairs);
}

#[test]
fn count_overlaps_single_gene() {
    let reads = vec![read("-", "chr3", 5, 1), read("-", "chr3", 9, 12), read("-", "chr3", 13, 20)];
    let index = build_read_index(&reads);
    let r = count_overlaps(&gene("A", "-", "chr3", 4, 9), &reads, &index);
    assert_eq!(r.intersections, 2);
}

#[test]
fn count_matches_filters_attributes() {
    let reads = vec![read("+", "chr1", 1, 2), read("-", "chr1", 1, 2), read("+", "chr1", 1, 2)];
    let g = gene("A", "+", "chr1", 1, 2);
    assert_eq!(count_matches(&g, &reads, &vec![0, 1, 2]), 2);
    assert_eq!(count_matches(&g, &reads, &vec![1]), 0);
    assert_eq!(count_matches(&g, &reads, &vec![0, 0]), 2);
}

#[test]
fn total_sums_counts() {
    let rs = vec![
        GeneResult { name: "a".to_string(), strand: "+".to_string(), chromosome: "c".to_string(), intersections: u32::MAX },
        GeneResult { name: "b".to_string(), strand: "+".to_string(), chromosome: "c".to_string(), intersections: 3 },
    ];
    assert_eq!(total_intersections(&rs), u32::MAX as u128 + 3);
}

#[test]
fn parse_takes_three_paths() {
    let a = parse(vec!["g.csv".to_string(), "r.csv".to_string(), "o.csv".to_string()]).unwrap();
    assert_eq!(a.genes, "g.csv");
    assert_eq!(a.reads, "r.csv");
    assert_eq!(a.output, "o.csv");
    assert!(parse(vec!["g.csv".to_string()]).is_none());
}
