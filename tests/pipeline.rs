use natural_selection::bf::Instruction;
use natural_selection::dna::{DNA, GENOME_LEN};
use natural_selection::pipeline::{GenomePipeline, PipelineClosed, PIPELINE_CAPACITY};

fn tagged(producer: usize, k: usize) -> DNA {
    let mut code = vec![Instruction::IncVal; producer + 1];
    code.extend(vec![Instruction::Write; k + 1]);
    DNA::from_code(code)
}

#[test]
fn pipeline_delivers_generated_genomes() {
    let (pipeline, producer) = GenomePipeline::new(PIPELINE_CAPACITY);
    assert_eq!(pipeline.capacity(), 1024);
    assert!(producer.produce());
    assert!(producer.produce());
    assert_eq!(pipeline.pending(), 2);
    let dna = DNA::generate_prechecked(&pipeline).expect("a genome is queued");
    assert_eq!(dna.instructions().len(), GENOME_LEN);
    let more = pipeline.take_genomes(1).expect("a genome is queued");
    assert_eq!(more.len(), 1);
}

#[test]
fn pipeline_reports_closed_when_producers_are_gone() {
    let (pipeline, producer) = GenomePipeline::new(4);
    assert!(producer.offer(tagged(0, 0)));
    drop(producer);
    assert!(pipeline.next_genome().is_ok());
    assert_eq!(pipeline.next_genome().err(), Some(PipelineClosed));
    assert_eq!(pipeline.take_genomes(2).err(), Some(PipelineClosed));
    assert_eq!(pipeline.take_genomes(0).map(|v| v.len()), Ok(0));
}

#[test]
fn producer_stops_when_pipeline_is_gone() {
    let (pipeline, producer) = GenomePipeline::new(4);
    drop(pipeline);
    assert!(!producer.produce());
}

#[test]
fn concurrent_producers_lose_and_duplicate_nothing() {
    let producers = 3;
    let per_producer = 16;
    let (pipeline, first) = GenomePipeline::new(64);
    let handles: Vec<_> = (0..producers).map(|_| first.another()).collect();
    drop(first);
    rayon::scope(|s| {
        for (p, handle) in handles.into_iter().enumerate() {
            s.spawn(move |_| {
                for k in 0..per_producer {
                    assert!(handle.offer(tagged(p, k)));
                }
            });
        }
    });
    assert!(pipeline.pending() <= pipeline.capacity());
    let mut seen = vec![vec![0usize; per_producer]; producers];
    for _ in 0..producers * per_producer {
        let dna = pipeline.next_genome().expect("every offered genome arrives");
        let code = dna.instructions();
        let p = code.iter().filter(|i| **i == Instruction::IncVal).count() - 1;
        let k = code.iter().filter(|i| **i == Instruction::Write).count() - 1;
        seen[p][k] += 1;
    }
    assert!(seen.iter().all(|row| row.iter().all(|&n| n == 1)));
    assert_eq!(pipeline.next_genome().err(), Some(PipelineClosed));
}
